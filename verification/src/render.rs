//! Values and errors as text.
//!
//! How a floating-point number is written is for the host to say: it hands
//! in the text for each bit pattern that it wants shown. `floats_in` tells
//! it which bit patterns a value holds.

use vstd::prelude::*;
use crate::error::{Fault, InterpreterError};
use crate::operation::Operation;
use vstd::string::StringExecFns;
use crate::value::{lemma_expression_view, names_of, values_of, SymbolicExpression, Value};

verus! {

/// A decimal digit as text.
pub open spec fn digit(value: nat) -> Seq<char> {
    if value == 0 {
        "0"@
    } else if value == 1 {
        "1"@
    } else if value == 2 {
        "2"@
    } else if value == 3 {
        "3"@
    } else if value == 4 {
        "4"@
    } else if value == 5 {
        "5"@
    } else if value == 6 {
        "6"@
    } else if value == 7 {
        "7"@
    } else if value == 8 {
        "8"@
    } else {
        "9"@
    }
}

/// The decimal digits of a natural number, without leading zeros.
pub open spec fn digits(number: nat) -> Seq<char>
    decreases number,
{
    if number < 10 {
        digit(number)
    } else {
        digits(number / 10) + digit(number % 10)
    }
}

/// An integer in decimal, with a minus sign if it is negative.
pub open spec fn decimal(number: int) -> Seq<char> {
    if number < 0 {
        "-"@ + digits((-number) as nat)
    } else {
        digits(number as nat)
    }
}

/// The text that the host gave for a bit pattern: that of the first entry
/// for it from position `from` on.
pub open spec fn text_from(texts: Seq<(u64, String)>, bits: u64, from: nat) -> Option<Seq<char>>
    decreases texts.len() - from,
{
    if from >= texts.len() {
        None
    } else if texts[from as int].0 == bits {
        Some(texts[from as int].1@)
    } else {
        text_from(texts, bits, from + 1)
    }
}

/// A floating-point number as text: what the host gave for it, or `#float`
/// if it gave nothing.
pub open spec fn float_text(texts: Seq<(u64, String)>, bits: u64) -> Seq<char> {
    match text_from(texts, bits, 0) {
        Some(text) => text,
        None => "#float"@,
    }
}

/// The name of an operation, as it is shown.
pub open spec fn label(operation: Operation) -> Seq<char> {
    match operation {
        Operation::Add => "Add"@,
        Operation::Substract => "Substract"@,
        Operation::Divide => "Divide"@,
        Operation::Multiply => "Multiply"@,
        Operation::Pow => "Pow"@,
        Operation::Exp => "Exp"@,
        Operation::Car => "Car"@,
        Operation::Cdr => "Cdr"@,
        Operation::Cons => "Cons"@,
        Operation::List => "List"@,
        Operation::Begin => "Begin"@,
        Operation::Module => "Module"@,
        Operation::Cond => "Cond"@,
        Operation::If => "If"@,
        Operation::Eq => "Eq"@,
        Operation::Smaller => "Smaller"@,
        Operation::Greater => "Greater"@,
        Operation::SmallerOrEqual => "SmallerOrEqual"@,
        Operation::GreaterOrEqual => "GreaterOrEqual"@,
        Operation::Define => "Define"@,
        Operation::Assign => "Set"@,
        Operation::Lambda => "Lambda"@,
        Operation::Quote => "Quote"@,
        Operation::Let => "Let"@,
    }
}

/// The names from position `from` on, with a space between neighbours.
pub open spec fn spaced_names(names: Seq<Seq<char>>, from: nat) -> Seq<char>
    decreases names.len() - from,
{
    if from >= names.len() {
        Seq::empty()
    } else if from + 1 == names.len() {
        names[from as int]
    } else {
        names[from as int] + " "@ + spaced_names(names, from + 1)
    }
}

/// A value as text. A string shows as it is, a symbol after `#`, an
/// integer in decimal, a truth value as `#t` or `#f`, `Nil` as `#nil`, a
/// pair as `(head . tail)`, a form as its items in parentheses, a closure
/// as `(lambda (parameters) body)` without the frame it closed over, and
/// an operation by its name.
pub open spec fn rendering(value: Value, texts: Seq<(u64, String)>) -> Seq<char>
    decreases value, 1nat,
{
    match value {
        Value::Str(text) => text,
        Value::Symbol(name) => "#"@ + name,
        Value::Float(bits) => float_text(texts, bits),
        Value::Int(integer) => decimal(integer as int),
        Value::Bool(truth) => if truth {
            "#t"@
        } else {
            "#f"@
        },
        Value::Nil => "#nil"@,
        Value::Cons { head, tail } => "("@ + rendering(*head, texts) + " . "@ + rendering(
            *tail,
            texts,
        ) + ")"@,
        Value::Expression(items) => "("@ + spaced(value, texts, 0) + ")"@,
        Value::Lambda { parameters, env, body } => "(lambda ("@ + spaced_names(parameters, 0)
            + ") "@ + rendering(*body, texts) + ")"@,
        Value::Operation(operation) => label(operation),
    }
}

/// The items of a form from position `from` on, each as text, with a
/// space between neighbours.
pub open spec fn spaced(form: Value, texts: Seq<(u64, String)>, from: nat) -> Seq<char>
    decreases form, 0nat, form->Expression_0.len() - from,
{
    if !(form is Expression) || from >= form->Expression_0.len() {
        Seq::empty()
    } else if from + 1 == form->Expression_0.len() {
        rendering(form->Expression_0[from as int], texts)
    } else {
        rendering(form->Expression_0[from as int], texts) + " "@ + spaced(form, texts, from + 1)
    }
}

/// The bit patterns of the floating-point numbers that a value holds, in
/// the order in which its text shows them.
pub open spec fn floats_of(value: Value) -> Seq<u64>
    decreases value, 1nat,
{
    match value {
        Value::Float(bits) => seq![bits],
        Value::Cons { head, tail } => floats_of(*head) + floats_of(*tail),
        Value::Expression(items) => floats_from(value, 0),
        Value::Lambda { parameters, env, body } => floats_of(*body),
        _ => Seq::empty(),
    }
}

/// The floating-point numbers of the items of a form from position `from` on.
pub open spec fn floats_from(form: Value, from: nat) -> Seq<u64>
    decreases form, 0nat, form->Expression_0.len() - from,
{
    if !(form is Expression) || from >= form->Expression_0.len() {
        Seq::empty()
    } else {
        floats_of(form->Expression_0[from as int]) + floats_from(form, from + 1)
    }
}

/// An error as text: its kind, then what it carries.
pub open spec fn fault_rendering(fault: Fault, texts: Seq<(u64, String)>) -> Seq<char> {
    match fault {
        Fault::VariableNotFound(name) => "RuntimeError: variable "@ + name + " not found"@,
        Fault::SyntaxError(value) => "SyntaxError "@ + rendering(value, texts),
        Fault::RuntimeError(message) => "RuntimeError: "@ + message,
        Fault::ValueError(message) => "ValueError: "@ + message,
        Fault::ArgumentError(message) => "ArgumentError: "@ + message,
    }
}

/// Appends the decimal digits of a natural number.
fn push_digits(out: &mut String, number: u128)
    ensures
        final(out)@ == old(out)@ + digits(number as nat),
    decreases number,
{
    if number >= 10 {
        push_digits(out, number / 10);
    }
    let last = number % 10;
    out.append(
        if last == 0 {
            "0"
        } else if last == 1 {
            "1"
        } else if last == 2 {
            "2"
        } else if last == 3 {
            "3"
        } else if last == 4 {
            "4"
        } else if last == 5 {
            "5"
        } else if last == 6 {
            "6"
        } else if last == 7 {
            "7"
        } else if last == 8 {
            "8"
        } else {
            "9"
        },
    );
    assert(out@ =~= old(out)@ + digits(number as nat));
}

/// Appends an integer in decimal.
fn push_decimal(out: &mut String, number: i128)
    ensures
        final(out)@ == old(out)@ + decimal(number as int),
{
    if number < 0 {
        out.append("-");
        let magnitude: u128 = (-(number + 1)) as u128 + 1;
        push_digits(out, magnitude);
        assert(out@ =~= old(out)@ + ("-"@ + digits((-number) as nat)));
    } else {
        push_digits(out, number as u128);
    }
}

/// Appends a floating-point number as the host writes it.
fn push_float(out: &mut String, texts: &Vec<(u64, String)>, bits: u64)
    ensures
        final(out)@ == old(out)@ + float_text(texts@, bits),
{
    let mut i: usize = 0;
    while i < texts.len()
        invariant
            i <= texts.len(),
            out@ == old(out)@,
            text_from(texts@, bits, i as nat) == text_from(texts@, bits, 0),
        decreases texts.len() - i,
    {
        if texts[i].0 == bits {
            out.append(texts[i].1.as_str());
            return ;
        }
        i += 1;
    }
    out.append("#float");
}

/// Appends the name of an operation.
fn push_label(out: &mut String, operation: Operation)
    ensures
        final(out)@ == old(out)@ + label(operation),
{
    out.append(
        match operation {
            Operation::Add => "Add",
            Operation::Substract => "Substract",
            Operation::Divide => "Divide",
            Operation::Multiply => "Multiply",
            Operation::Pow => "Pow",
            Operation::Exp => "Exp",
            Operation::Car => "Car",
            Operation::Cdr => "Cdr",
            Operation::Cons => "Cons",
            Operation::List => "List",
            Operation::Begin => "Begin",
            Operation::Module => "Module",
            Operation::Cond => "Cond",
            Operation::If => "If",
            Operation::Eq => "Eq",
            Operation::Smaller => "Smaller",
            Operation::Greater => "Greater",
            Operation::SmallerOrEqual => "SmallerOrEqual",
            Operation::GreaterOrEqual => "GreaterOrEqual",
            Operation::Define => "Define",
            Operation::Assign => "Set",
            Operation::Lambda => "Lambda",
            Operation::Quote => "Quote",
            Operation::Let => "Let",
        },
    );
}

/// Appends names with a space between neighbours.
fn push_names(out: &mut String, names: &Vec<String>)
    ensures
        final(out)@ == old(out)@ + spaced_names(names_of(names@), 0),
{
    let ghost all = names_of(names@);
    let mut i: usize = 0;
    while i < names.len()
        invariant
            i <= names.len(),
            all == names_of(names@),
            out@ + spaced_names(all, i as nat) == old(out)@ + spaced_names(all, 0),
        decreases names.len() - i,
    {
        let ghost before = out@;
        let ghost rest = spaced_names(all, (i + 1) as nat);
        out.append(names[i].as_str());
        if i + 1 < names.len() {
            out.append(" ");
            assert(out@ + rest =~= before + (all[i as int] + " "@ + rest));
        } else {
            assert(rest =~= Seq::<char>::empty());
            assert(out@ + rest =~= before + all[i as int]);
        }
        i += 1;
    }
    assert(out@ + Seq::<char>::empty() =~= out@);
}

/// Appends a value as text.
fn render_into(value: &SymbolicExpression, texts: &Vec<(u64, String)>, out: &mut String)
    ensures
        final(out)@ == old(out)@ + rendering(value@, texts@),
    decreases value,
{
    let ghost start = out@;
    match value {
        SymbolicExpression::Str(text) => {
            out.append(text.as_str());
        },
        SymbolicExpression::Symbol(name) => {
            out.append("#");
            out.append(name.as_str());
            assert(out@ =~= start + ("#"@ + name@));
        },
        SymbolicExpression::Float(bits) => {
            push_float(out, texts, *bits);
        },
        SymbolicExpression::Int(integer) => {
            push_decimal(out, *integer);
        },
        SymbolicExpression::Bool(truth) => {
            if *truth {
                out.append("#t");
            } else {
                out.append("#f");
            }
        },
        SymbolicExpression::Nil => {
            out.append("#nil");
        },
        SymbolicExpression::Cons { head, tail } => {
            out.append("(");
            render_into(head, texts, out);
            out.append(" . ");
            render_into(tail, texts, out);
            out.append(")");
            assert(out@ =~= start + ("("@ + rendering(head@, texts@) + " . "@ + rendering(
                tail@,
                texts@,
            ) + ")"@));
        },
        SymbolicExpression::Expression(items) => {
            proof {
                lemma_expression_view(*items);
            }
            out.append("(");
            let ghost opened = out@;
            let mut i: usize = 0;
            while i < items.len()
                invariant
                    i <= items.len(),
                    *value == SymbolicExpression::Expression(*items),
                    value@ == Value::Expression(values_of(items@)),
                    out@ + spaced(value@, texts@, i as nat) == opened + spaced(value@, texts@, 0),
                decreases items.len() - i,
            {
                proof {
                    vstd::std_specs::vec::axiom_vec_index_decreases(*items, i as int);
                    assert(decreases_to!(*value => value->Expression_0));
                }
                let ghost before = out@;
                let ghost rest = spaced(value@, texts@, (i + 1) as nat);
                let ghost item = rendering(items[i as int]@, texts@);
                assert(values_of(items@)[i as int] == items[i as int]@);
                render_into(&items[i], texts, out);
                if i + 1 < items.len() {
                    out.append(" ");
                    assert(out@ + rest =~= before + (item + " "@ + rest));
                } else {
                    assert(rest =~= Seq::<char>::empty());
                    assert(out@ + rest =~= before + item);
                }
                i += 1;
            }
            assert(out@ + Seq::<char>::empty() =~= out@);
            out.append(")");
            assert(out@ =~= start + ("("@ + spaced(value@, texts@, 0) + ")"@));
        },
        SymbolicExpression::Lambda { parameters, env, body } => {
            out.append("(lambda (");
            push_names(out, parameters);
            out.append(") ");
            render_into(body, texts, out);
            out.append(")");
            assert(out@ =~= start + ("(lambda ("@ + spaced_names(names_of(parameters@), 0)
                + ") "@ + rendering(body@, texts@) + ")"@));
        },
        SymbolicExpression::Operation(operation) => {
            push_label(out, *operation);
        },
    }
}

/// Appends the bit patterns of the floating-point numbers that a value holds.
fn floats_into(value: &SymbolicExpression, out: &mut Vec<u64>)
    ensures
        final(out)@ == old(out)@ + floats_of(value@),
    decreases value,
{
    let ghost start = out@;
    match value {
        SymbolicExpression::Float(bits) => {
            out.push(*bits);
            assert(out@ =~= start + seq![*bits]);
        },
        SymbolicExpression::Cons { head, tail } => {
            floats_into(head, out);
            floats_into(tail, out);
            assert(out@ =~= start + (floats_of(head@) + floats_of(tail@)));
        },
        SymbolicExpression::Expression(items) => {
            proof {
                lemma_expression_view(*items);
            }
            let mut i: usize = 0;
            while i < items.len()
                invariant
                    i <= items.len(),
                    *value == SymbolicExpression::Expression(*items),
                    value@ == Value::Expression(values_of(items@)),
                    out@ + floats_from(value@, i as nat) == start + floats_from(value@, 0),
                decreases items.len() - i,
            {
                proof {
                    vstd::std_specs::vec::axiom_vec_index_decreases(*items, i as int);
                    assert(decreases_to!(*value => value->Expression_0));
                }
                let ghost before = out@;
                let ghost rest = floats_from(value@, (i + 1) as nat);
                assert(values_of(items@)[i as int] == items[i as int]@);
                floats_into(&items[i], out);
                assert(out@ + rest =~= before + (floats_of(items[i as int]@) + rest));
                i += 1;
            }
            assert(out@ + Seq::<u64>::empty() =~= out@);
        },
        SymbolicExpression::Lambda { parameters, env, body } => {
            floats_into(body, out);
        },
        _ => {
            assert(start + Seq::<u64>::empty() =~= start);
        },
    }
}

impl SymbolicExpression {
    /// The bit patterns of the floating-point numbers that the value
    /// holds, in the order in which its text shows them.
    pub fn floats_in(&self) -> (found: Vec<u64>)
        ensures
            found@ == floats_of(self@),
    {
        let mut found: Vec<u64> = Vec::new();
        floats_into(self, &mut found);
        assert(Seq::<u64>::empty() + floats_of(self@) =~= floats_of(self@));
        found
    }

    /// The value as text. `texts` holds, for each floating-point number
    /// that is to be shown, its bit pattern and its text.
    pub fn render(&self, texts: &Vec<(u64, String)>) -> (text: String)
        ensures
            text@ == rendering(self@, texts@),
    {
        let mut out = String::new();
        render_into(self, texts, &mut out);
        assert(Seq::<char>::empty() + rendering(self@, texts@) =~= rendering(self@, texts@));
        out
    }
}

impl InterpreterError {
    /// The bit patterns of the floating-point numbers that the error's
    /// text shows.
    pub fn floats_in(&self) -> (found: Vec<u64>)
        ensures
            found@ == match self@ {
                Fault::SyntaxError(value) => floats_of(value),
                _ => Seq::<u64>::empty(),
            },
    {
        match self {
            InterpreterError::SyntaxError(value) => value.floats_in(),
            _ => Vec::new(),
        }
    }

    /// The error as text. `texts` holds, for each floating-point number
    /// that is to be shown, its bit pattern and its text.
    pub fn render(&self, texts: &Vec<(u64, String)>) -> (text: String)
        ensures
            text@ == fault_rendering(self@, texts@),
    {
        let mut out = String::new();
        let ghost empty = out@;
        match self {
            InterpreterError::VariableNotFound(name) => {
                out.append("RuntimeError: variable ");
                out.append(name.as_str());
                out.append(" not found");
                assert(out@ =~= "RuntimeError: variable "@ + name@ + " not found"@);
            },
            InterpreterError::SyntaxError(value) => {
                out.append("SyntaxError ");
                render_into(value, texts, &mut out);
                assert(out@ =~= "SyntaxError "@ + rendering(value@, texts@));
            },
            InterpreterError::RuntimeError(message) => {
                out.append("RuntimeError: ");
                out.append(message.as_str());
                assert(out@ =~= "RuntimeError: "@ + message@);
            },
            InterpreterError::ValueError(message) => {
                out.append("ValueError: ");
                out.append(message.as_str());
                assert(out@ =~= "ValueError: "@ + message@);
            },
            InterpreterError::ArgumentError(message) => {
                out.append("ArgumentError: ");
                out.append(message.as_str());
                assert(out@ =~= "ArgumentError: "@ + message@);
            },
        }
        out
    }
}

} // verus!

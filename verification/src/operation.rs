//! The fixed set of built-in operations and special forms, and the table of
//! reserved words that name them.

use vstd::prelude::*;
use crate::text::same_text;

verus! {

/// A built-in operation or special form.
#[derive(Debug, Clone, Copy, PartialEq, Eq, PartialOrd, Structural)]
pub enum Operation {
    Add,
    Substract,
    Divide,
    Multiply,
    Pow,
    Exp,
    Car,
    Cdr,
    Cons,
    List,
    Begin,
    Module,
    Cond,
    If,
    Eq,
    Smaller,
    Greater,
    SmallerOrEqual,
    GreaterOrEqual,
    Define,
    Assign,
    Lambda,
    Quote,
    Let,
}

impl Operation {
    /// The reserved word that stands for this operation in source text.
    pub open spec fn name(self) -> Seq<char> {
        match self {
            Operation::Add => "+"@,
            Operation::Substract => "-"@,
            Operation::Multiply => "*"@,
            Operation::Divide => "/"@,
            Operation::Pow => "pow"@,
            Operation::Exp => "exp"@,
            Operation::Car => "car"@,
            Operation::Cdr => "cdr"@,
            Operation::Cons => "cons"@,
            Operation::List => "list"@,
            Operation::Begin => "begin"@,
            Operation::Module => "module"@,
            Operation::Cond => "cond"@,
            Operation::If => "if"@,
            Operation::Eq => "="@,
            Operation::Smaller => "<"@,
            Operation::Greater => ">"@,
            Operation::SmallerOrEqual => "<="@,
            Operation::GreaterOrEqual => ">="@,
            Operation::Define => "define"@,
            Operation::Assign => "set!"@,
            Operation::Lambda => "lambda"@,
            Operation::Quote => "quote"@,
            Operation::Let => "let"@,
        }
    }

    /// The operation that a word names, if it is reserved.
    pub open spec fn named(word: Seq<char>) -> Option<Operation> {
        if exists|operation: Operation| operation.name() == word {
            Some(choose|operation: Operation| operation.name() == word)
        } else {
            None
        }
    }

    /// Whether this operation is one of the four arithmetic folds.
    pub open spec fn is_arithmetic(self) -> bool {
        self == Operation::Add || self == Operation::Substract || self == Operation::Multiply
            || self == Operation::Divide
    }

    /// Looks a word up in the table of reserved words.
    pub fn get(operation_name: &str) -> (found: Option<Operation>)
        ensures
            found == Operation::named(operation_name@),
            found matches Some(operation) ==> operation.name() == operation_name@,
            found is None ==> forall|operation: Operation| operation.name() != operation_name@,
    {
        let found = if same_text(operation_name, "+") {
            Some(Operation::Add)
        } else if same_text(operation_name, "-") {
            Some(Operation::Substract)
        } else if same_text(operation_name, "*") {
            Some(Operation::Multiply)
        } else if same_text(operation_name, "/") {
            Some(Operation::Divide)
        } else if same_text(operation_name, "pow") {
            Some(Operation::Pow)
        } else if same_text(operation_name, "exp") {
            Some(Operation::Exp)
        } else if same_text(operation_name, "car") {
            Some(Operation::Car)
        } else if same_text(operation_name, "cdr") {
            Some(Operation::Cdr)
        } else if same_text(operation_name, "cons") {
            Some(Operation::Cons)
        } else if same_text(operation_name, "list") {
            Some(Operation::List)
        } else if same_text(operation_name, "begin") {
            Some(Operation::Begin)
        } else if same_text(operation_name, "module") {
            Some(Operation::Module)
        } else if same_text(operation_name, "cond") {
            Some(Operation::Cond)
        } else if same_text(operation_name, "if") {
            Some(Operation::If)
        } else if same_text(operation_name, "=") {
            Some(Operation::Eq)
        } else if same_text(operation_name, "<") {
            Some(Operation::Smaller)
        } else if same_text(operation_name, ">") {
            Some(Operation::Greater)
        } else if same_text(operation_name, "<=") {
            Some(Operation::SmallerOrEqual)
        } else if same_text(operation_name, ">=") {
            Some(Operation::GreaterOrEqual)
        } else if same_text(operation_name, "define") {
            Some(Operation::Define)
        } else if same_text(operation_name, "set!") {
            Some(Operation::Assign)
        } else if same_text(operation_name, "lambda") {
            Some(Operation::Lambda)
        } else if same_text(operation_name, "quote") {
            Some(Operation::Quote)
        } else if same_text(operation_name, "let") {
            Some(Operation::Let)
        } else {
            None
        };
        proof {
            lemma_names_differ();
            match found {
                Some(operation) => {
                    assert(operation.name() == operation_name@);
                },
                None => {
                    assert forall|operation: Operation| operation.name() != operation_name@ by {
                        match operation {
                            _ => {},
                        }
                    }
                },
            }
        }
        found
    }
}

/// No two operations share a reserved word.
pub proof fn lemma_names_differ()
    ensures
        forall|first: Operation, second: Operation|
            first.name() == second.name() ==> first == second,
{
    reveal_strlit("+");
    reveal_strlit("-");
    reveal_strlit("*");
    reveal_strlit("/");
    reveal_strlit("pow");
    reveal_strlit("exp");
    reveal_strlit("car");
    reveal_strlit("cdr");
    reveal_strlit("cons");
    reveal_strlit("list");
    reveal_strlit("begin");
    reveal_strlit("module");
    reveal_strlit("cond");
    reveal_strlit("if");
    reveal_strlit("=");
    reveal_strlit("<");
    reveal_strlit(">");
    reveal_strlit("<=");
    reveal_strlit(">=");
    reveal_strlit("define");
    reveal_strlit("set!");
    reveal_strlit("lambda");
    reveal_strlit("quote");
    reveal_strlit("let");
    assert forall|first: Operation, second: Operation|
        first.name() == second.name() implies first == second by {
        let a = first.name();
        let b = second.name();
        assert(a.len() == b.len());
        if a.len() > 0 {
            assert(a[0] == b[0]);
        }
        if a.len() > 1 {
            assert(a[1] == b[1]);
        }
        if a.len() > 2 {
            assert(a[2] == b[2]);
        }
        if a.len() > 3 {
            assert(a[3] == b[3]);
        }
    }
}

} // verus!

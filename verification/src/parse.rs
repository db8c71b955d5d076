//! Tokens to expressions.

use std::collections::VecDeque;
use vstd::prelude::*;
use crate::operation::Operation;
use crate::text::same_text;
use crate::tokenize::{tokens_of, Token, TokenView};
use crate::value::{lemma_expression_view, values_of, SymbolicExpression, Value};

verus! {

/// The items of a list, and the position behind the list.
pub ghost struct Parsed {
    pub values: Seq<Value>,
    pub end: nat,
}

/// The expression that a token other than a parenthesis stands for. A
/// symbol that is a reserved word stands for its operation; `#nil`, `#t`
/// and `#f` stand for `Nil` and the two truth values.
pub open spec fn atom(token: TokenView) -> Value {
    match token {
        TokenView::Int(integer) => Value::Int(integer),
        TokenView::Float(bits) => Value::Float(bits),
        TokenView::String(text) => Value::Str(text),
        TokenView::Symbol(name) => if name == "#nil"@ {
            Value::Nil
        } else if name == "#t"@ {
            Value::Bool(true)
        } else if name == "#f"@ {
            Value::Bool(false)
        } else {
            match Operation::named(name) {
                Some(operation) => Value::Operation(operation),
                None => Value::Symbol(name),
            }
        },
        _ => Value::Nil,
    }
}

/// The items of the list that starts at position `at`, up to the
/// parenthesis that closes it or to the end of the tokens. An opening
/// parenthesis starts a list inside, which is one item. (The position
/// behind a list inside always lies further on; the definition says so
/// where it goes on from there.)
pub open spec fn parse_from(tokens: Seq<TokenView>, at: nat) -> Parsed
    decreases tokens.len() - at,
{
    if at >= tokens.len() {
        Parsed { values: Seq::empty(), end: at }
    } else {
        match tokens[at as int] {
            TokenView::RightParanthesis => Parsed { values: Seq::empty(), end: at + 1 },
            TokenView::LeftParanthesis => {
                let inner = parse_from(tokens, at + 1);
                let after = if at < inner.end <= tokens.len() {
                    inner.end
                } else {
                    tokens.len()
                };
                let rest = parse_from(tokens, after);
                Parsed {
                    values: seq![Value::Expression(inner.values)] + rest.values,
                    end: rest.end,
                }
            },
            token => {
                let rest = parse_from(tokens, at + 1);
                Parsed { values: seq![atom(token)] + rest.values, end: rest.end }
            },
        }
    }
}

/// A list ends behind where it starts, and within the tokens.
pub proof fn lemma_parse_moves_on(tokens: Seq<TokenView>, at: nat)
    requires
        at <= tokens.len(),
    ensures
        at <= parse_from(tokens, at).end <= tokens.len(),
        at < tokens.len() ==> at < parse_from(tokens, at).end,
    decreases tokens.len() - at,
{
    if at < tokens.len() {
        match tokens[at as int] {
            TokenView::RightParanthesis => {},
            TokenView::LeftParanthesis => {
                lemma_parse_moves_on(tokens, at + 1);
                lemma_parse_moves_on(tokens, parse_from(tokens, at + 1).end);
            },
            _ => {
                lemma_parse_moves_on(tokens, at + 1);
            },
        }
    }
}

/// The expression that a token other than a parenthesis stands for.
fn literal(token: Token) -> (value: SymbolicExpression)
    ensures
        value@ == atom(token@),
{
    match token {
        Token::Int(integer) => SymbolicExpression::Int(integer),
        Token::Float(bits) => SymbolicExpression::Float(bits),
        Token::String(text) => SymbolicExpression::Str(text),
        Token::Symbol(name) => {
            if same_text(name.as_str(), "#nil") {
                SymbolicExpression::Nil
            } else if same_text(name.as_str(), "#t") {
                SymbolicExpression::Bool(true)
            } else if same_text(name.as_str(), "#f") {
                SymbolicExpression::Bool(false)
            } else {
                match Operation::get(name.as_str()) {
                    Some(operation) => SymbolicExpression::Operation(operation),
                    None => SymbolicExpression::Symbol(name),
                }
            }
        },
        _ => SymbolicExpression::Nil,
    }
}

/// Reads the list that starts at the front of `tokens`, which are the
/// tokens of `all` from position `at` on.
fn parse_list(tokens: &mut VecDeque<Token>, Ghost(all): Ghost<Seq<TokenView>>, Ghost(at): Ghost<nat>) -> (values:
    Vec<SymbolicExpression>)
    requires
        at <= all.len(),
        tokens_of(old(tokens)@) == all.skip(at as int),
    ensures
        values_of(values@) == parse_from(all, at).values,
        tokens_of(final(tokens)@) == all.skip(parse_from(all, at).end as int),
    decreases all.len() - at,
{
    let mut values: Vec<SymbolicExpression> = Vec::new();
    let ghost mut here: nat = at;
    assert(values_of(values@) =~= Seq::empty());
    loop
        invariant
            at <= here <= all.len(),
            tokens_of(tokens@) == all.skip(here as int),
            values_of(values@) + parse_from(all, here).values == parse_from(all, at).values,
            parse_from(all, here).end == parse_from(all, at).end,
        decreases all.len() - here,
    {
        let ghost before = tokens@;
        let ghost collected = values_of(values@);
        assert(tokens_of(before).len() == all.len() - here);
        match tokens.pop_front() {
            None => {
                assert(here == all.len());
                assert(collected + Seq::<Value>::empty() =~= collected);
                return values;
            },
            Some(token) => {
                assert(token@ == all[here as int]) by {
                    assert(tokens_of(before)[0] == all.skip(here as int)[0]);
                }
                assert(tokens_of(tokens@) =~= all.skip(here + 1 as int)) by {
                    assert forall|i: int| 0 <= i < tokens@.len() implies tokens_of(tokens@)[i]
                        == all.skip(here + 1 as int)[i] by {
                        assert(tokens_of(before)[i + 1] == all.skip(here as int)[i + 1]);
                    }
                }
                match token {
                    Token::RightParanthesis => {
                        assert(collected + Seq::<Value>::empty() =~= collected);
                        return values;
                    },
                    Token::LeftParanthesis => {
                        let inner = parse_list(tokens, Ghost(all), Ghost((here + 1) as nat));
                        proof {
                            lemma_parse_moves_on(all, (here + 1) as nat);
                            lemma_expression_view(inner);
                        }
                        let ghost after = parse_from(all, (here + 1) as nat).end;
                        let ghost rest = parse_from(all, after).values;
                        values.push(SymbolicExpression::Expression(inner));
                        assert(values_of(values@) + rest =~= collected + (seq![
                            Value::Expression(parse_from(all, (here + 1) as nat).values),
                        ] + rest));
                        proof {
                            here = after;
                        }
                    },
                    other => {
                        let ghost rest = parse_from(all, (here + 1) as nat).values;
                        let ghost view = other@;
                        values.push(literal(other));
                        assert(values_of(values@) + rest =~= collected + (seq![atom(view)]
                            + rest));
                        proof {
                            here = (here + 1) as nat;
                        }
                    },
                }
            },
        }
    }
}

/// Reads one list from the front of the tokens: everything up to the
/// parenthesis that closes it, which is taken too, or up to the end. The
/// tokens behind it stay.
pub fn parse(tokens: &mut VecDeque<Token>) -> (expression: SymbolicExpression)
    ensures
        expression@ == Value::Expression(parse_from(tokens_of(old(tokens)@), 0).values),
        tokens_of(final(tokens)@) == tokens_of(old(tokens)@).skip(
            parse_from(tokens_of(old(tokens)@), 0).end as int,
        ),
{
    let ghost all = tokens_of(tokens@);
    assert(all.skip(0) =~= all);
    let values = parse_list(tokens, Ghost(all), Ghost(0));
    proof {
        lemma_expression_view(values);
    }
    SymbolicExpression::Expression(values)
}

} // verus!

//! Text to tokens.
//!
//! A text falls into pieces at white space and at parentheses; each piece
//! becomes one token. Whether a piece spells a floating-point number, and
//! which, is for the host to say: it reads each piece and hands in what it
//! found.

use std::collections::VecDeque;
use vstd::prelude::*;
use vstd::string::StrSliceExecFns;
use crate::text::{characters, is_white_space, parse_integer, read_integer, white_space};
use crate::value::names_of;

verus! {

/// The smallest unit of source text.
#[derive(Debug, PartialEq)]
pub enum Token {
    LeftParanthesis,
    RightParanthesis,
    Int(i128),
    /// A floating-point number, by its bits.
    Float(u64),
    String(String),
    Symbol(String),
}

/// The mathematical content of a `Token`.
pub ghost enum TokenView {
    LeftParanthesis,
    RightParanthesis,
    Int(i128),
    Float(u64),
    String(Seq<char>),
    Symbol(Seq<char>),
}

impl View for Token {
    type V = TokenView;

    open spec fn view(&self) -> TokenView {
        match self {
            Token::LeftParanthesis => TokenView::LeftParanthesis,
            Token::RightParanthesis => TokenView::RightParanthesis,
            Token::Int(integer) => TokenView::Int(*integer),
            Token::Float(bits) => TokenView::Float(*bits),
            Token::String(text) => TokenView::String(text@),
            Token::Symbol(name) => TokenView::Symbol(name@),
        }
    }
}

/// The mathematical content of a sequence of tokens.
pub open spec fn tokens_of(tokens: Seq<Token>) -> Seq<TokenView> {
    Seq::new(tokens.len(), |i: int| tokens[i]@)
}

/// The piece collected so far, as a sequence of pieces: none if it is empty.
pub open spec fn flushed(current: Seq<char>) -> Seq<Seq<char>> {
    if current.len() > 0 {
        seq![current]
    } else {
        Seq::empty()
    }
}

/// The pieces of `text` from position `at` on, where `current` is the
/// piece under way. White space ends a piece; a parenthesis ends a piece
/// and is a piece by itself.
pub open spec fn split_from(text: Seq<char>, at: nat, current: Seq<char>) -> Seq<Seq<char>>
    decreases text.len() - at,
{
    if at >= text.len() {
        flushed(current)
    } else if is_white_space(text[at as int]) {
        flushed(current) + split_from(text, at + 1, Seq::empty())
    } else if text[at as int] == '(' || text[at as int] == ')' {
        flushed(current) + seq![seq![text[at as int]]] + split_from(text, at + 1, Seq::empty())
    } else {
        split_from(text, at + 1, current.push(text[at as int]))
    }
}

/// The pieces of a text.
pub open spec fn pieces(text: Seq<char>) -> Seq<Seq<char>> {
    split_from(text, 0, Seq::empty())
}

/// The token that a piece is. `float` is the floating-point number that
/// the piece spells, if it spells one; it counts only where the piece
/// spells no integer.
pub open spec fn classify(piece: Seq<char>, float: Option<u64>) -> TokenView {
    if piece == seq!['('] {
        TokenView::LeftParanthesis
    } else if piece == seq![')'] {
        TokenView::RightParanthesis
    } else {
        match read_integer(piece) {
            Some(integer) => TokenView::Int(integer),
            None => match float {
                Some(bits) => TokenView::Float(bits),
                None => if piece.len() > 0 && piece.first() == '"' && piece.last() == '"' {
                    TokenView::String(piece)
                } else {
                    TokenView::Symbol(piece)
                },
            },
        }
    }
}

/// The host's reading of the piece at `index`: none where it gave none.
pub open spec fn reading(floats: Seq<Option<u64>>, index: int) -> Option<u64> {
    if 0 <= index < floats.len() {
        floats[index]
    } else {
        None
    }
}

/// The tokens of a text, given the host's reading of each piece.
pub open spec fn tokens(text: Seq<char>, floats: Seq<Option<u64>>) -> Seq<TokenView> {
    Seq::new(pieces(text).len(), |i: int| classify(pieces(text)[i], reading(floats, i)))
}

/// Ends the piece under way, if there is one: the characters of `code`
/// from `start` up to `at`.
fn flush(done: &mut Vec<String>, code: &str, start: usize, at: usize)
    requires
        start <= at <= code@.len(),
    ensures
        names_of(final(done)@) == names_of(old(done)@) + flushed(
            code@.subrange(start as int, at as int),
        ),
{
    if at > start {
        done.push(code.substring_char(start, at).to_owned());
    }
    assert(names_of(done@) =~= names_of(old(done)@) + flushed(
        code@.subrange(start as int, at as int),
    ));
}

/// Splits a text into its pieces.
pub fn split(code: &str) -> (parts: Vec<String>)
    ensures
        names_of(parts@) == pieces(code@),
{
    let chars = characters(code);
    let mut done: Vec<String> = Vec::new();
    let mut start: usize = 0;
    let mut at: usize = 0;
    assert(names_of(done@) =~= Seq::empty());
    assert(code@.subrange(0, 0) =~= Seq::empty());
    while at < chars.len()
        invariant
            start <= at <= chars.len(),
            chars@ == code@,
            names_of(done@) + split_from(
                code@,
                at as nat,
                code@.subrange(start as int, at as int),
            ) == pieces(code@),
        decreases chars.len() - at,
    {
        let c = chars[at];
        let ghost before = names_of(done@);
        let ghost piece = code@.subrange(start as int, at as int);
        let ghost rest = split_from(code@, (at + 1) as nat, Seq::empty());
        assert(code@.subrange(at + 1, at + 1) =~= Seq::empty());
        if white_space(c) {
            flush(&mut done, code, start, at);
            assert(names_of(done@) + rest =~= before + (flushed(piece) + rest));
            start = at + 1;
        } else if c == '(' || c == ')' {
            flush(&mut done, code, start, at);
            let ghost flushed_now = names_of(done@);
            done.push(code.substring_char(at, at + 1).to_owned());
            assert(code@.subrange(at as int, at + 1) =~= seq![c]);
            assert(names_of(done@) =~= flushed_now + seq![seq![c]]);
            assert(names_of(done@) + rest =~= before + (flushed(piece) + seq![seq![c]] + rest));
            start = at + 1;
        } else {
            assert(code@.subrange(start as int, at + 1) =~= piece.push(c));
        }
        at += 1;
    }
    flush(&mut done, code, start, at);
    done
}

/// The token that a piece is, given the floating-point number that the
/// host read from it, if any.
pub fn token_of(piece: &str, float: Option<u64>) -> (token: Token)
    ensures
        token@ == classify(piece@, float),
{
    let chars = characters(piece);
    if chars.len() == 1 && chars[0] == '(' {
        assert(piece@ =~= seq!['(']);
        return Token::LeftParanthesis;
    }
    if chars.len() == 1 && chars[0] == ')' {
        assert(piece@ =~= seq![')']);
        return Token::RightParanthesis;
    }
    assert(piece@ != seq!['(']) by {
        if piece@ == seq!['('] {
            assert(seq!['('][0] == '(');
        }
    }
    assert(piece@ != seq![')']) by {
        if piece@ == seq![')'] {
            assert(seq![')'][0] == ')');
        }
    }
    match parse_integer(piece) {
        Some(integer) => Token::Int(integer),
        None => match float {
            Some(bits) => Token::Float(bits),
            None => {
                if chars.len() > 0 && chars[0] == '"' && chars[chars.len() - 1] == '"' {
                    Token::String(piece.to_owned())
                } else {
                    Token::Symbol(piece.to_owned())
                }
            },
        },
    }
}

/// Turns a text into tokens. `floats` holds, for each piece of the text in
/// order (see `split`), the bits of the floating-point number that the
/// piece spells, or `None` if it spells none; pieces beyond its end count
/// as spelling none.
pub fn tokenize(code: &str, floats: &Vec<Option<u64>>) -> (found: VecDeque<Token>)
    ensures
        tokens_of(found@) == tokens(code@, floats@),
{
    let parts = split(code);
    let mut found: VecDeque<Token> = VecDeque::new();
    let mut i: usize = 0;
    while i < parts.len()
        invariant
            i <= parts.len(),
            names_of(parts@) == pieces(code@),
            found@.len() == i,
            forall|j: int| 0 <= j < i ==> found@[j]@ == classify(pieces(code@)[j], reading(floats@, j)),
        decreases parts.len() - i,
    {
        let float = if i < floats.len() {
            floats[i]
        } else {
            None
        };
        assert(names_of(parts@)[i as int] == parts[i as int]@);
        let token = token_of(parts[i].as_str(), float);
        found.push_back(token);
        i += 1;
    }
    assert(names_of(parts@).len() == parts.len());
    assert(tokens_of(found@) =~= tokens(code@, floats@));
    found
}

} // verus!

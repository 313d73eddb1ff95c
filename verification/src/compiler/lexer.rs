//! Lexical scanning: source text to an ordered sequence of command tokens.
//! Every character outside the eight-symbol alphabet is a comment and is
//! silently skipped.

use vstd::prelude::*;

verus! {

/// One of the eight command symbols of the language.
#[derive(Clone, Copy, PartialEq, Eq, Structural, Debug)]
pub enum Token {
    /// `+`: add one to the cell under the pointer.
    Increment,
    /// `-`: subtract one from the cell under the pointer.
    Decrement,
    /// `<`: move the pointer one cell to the left.
    MoveLeft,
    /// `>`: move the pointer one cell to the right.
    MoveRight,
    /// `,`: read one value from the input stream into the cell.
    Input,
    /// `.`: write the cell's value to the output stream.
    Output,
    /// `[`: open a loop.
    LoopOpen,
    /// `]`: close a loop.
    LoopClose,
}

/// The token a character scans to, if any.
pub open spec fn spec_token_of(c: char) -> Option<Token> {
    if c == '+' {
        Some(Token::Increment)
    } else if c == '-' {
        Some(Token::Decrement)
    } else if c == '<' {
        Some(Token::MoveLeft)
    } else if c == '>' {
        Some(Token::MoveRight)
    } else if c == ',' {
        Some(Token::Input)
    } else if c == '.' {
        Some(Token::Output)
    } else if c == '[' {
        Some(Token::LoopOpen)
    } else if c == ']' {
        Some(Token::LoopClose)
    } else {
        None
    }
}

/// The token sequence a character sequence scans to, in source order.
pub open spec fn spec_tokens_of(s: Seq<char>) -> Seq<Token>
    decreases s.len(),
{
    if s.len() == 0 {
        Seq::empty()
    } else {
        spec_tokens_of(s.drop_last()) + match spec_token_of(s.last()) {
            Some(t) => seq![t],
            None => Seq::empty(),
        }
    }
}

/// Scans `code` left to right into its token sequence; characters outside
/// the alphabet are skipped. Always succeeds.
pub fn build_token_list(code: &str) -> (tokens: Vec<Token>)
    ensures
        tokens@ == spec_tokens_of(code@),
{
    let n = code.unicode_len();
    let mut tokens: Vec<Token> = Vec::new();
    let mut i: usize = 0;
    while i < n
        invariant
            n == code@.len(),
            i <= n,
            tokens@ == spec_tokens_of(code@.take(i as int)),
        decreases n - i,
    {
        let c = code.get_char(i);
        match token_of(c) {
            Some(t) => tokens.push(t),
            None => {},
        }
        proof {
            assert(code@.take(i + 1).drop_last() =~= code@.take(i as int));
            assert(code@.take(i + 1).last() == code@[i as int]);
        }
        i = i + 1;
    }
    proof {
        assert(code@.take(n as int) =~= code@);
    }
    tokens
}

/// The token `c` scans to, if any.
fn token_of(c: char) -> (t: Option<Token>)
    ensures
        t == spec_token_of(c),
{
    match c {
        '+' => Some(Token::Increment),
        '-' => Some(Token::Decrement),
        '<' => Some(Token::MoveLeft),
        '>' => Some(Token::MoveRight),
        ',' => Some(Token::Input),
        '.' => Some(Token::Output),
        '[' => Some(Token::LoopOpen),
        ']' => Some(Token::LoopClose),
        _ => None,
    }
}

} // verus!

//! The instruction set: one token per recognized source character.

use vstd::prelude::*;
use vstd::std_specs::convert::TryFromSpecImpl;

verus! {

/// One instruction of the tape language.
#[derive(Debug, Clone, Copy, PartialEq, Eq, Structural)]
pub enum Token {
    /// `>`: move the data pointer one cell to the right.
    IncDataPtr,
    /// `<`: move the data pointer one cell to the left.
    DecDataPtr,
    /// `+`: add one to the current cell, wrapping at 256.
    IncValue,
    /// `-`: subtract one from the current cell, wrapping at 256.
    DecValue,
    /// `.`: emit the current cell.
    Output,
    /// `,`: read one byte into the current cell.
    GetInput,
    /// `[`: jump to the matching `]` if the current cell is zero.
    JumpForward,
    /// `]`: jump to the matching `[` if the current cell is not zero.
    JumpBackward,
}

impl Token {
    /// The source character that denotes this instruction.
    pub open spec fn symbol(self) -> char {
        match self {
            Token::IncDataPtr => '>',
            Token::DecDataPtr => '<',
            Token::IncValue => '+',
            Token::DecValue => '-',
            Token::Output => '.',
            Token::GetInput => ',',
            Token::JumpForward => '[',
            Token::JumpBackward => ']',
        }
    }

    /// The instruction denoted by `c`, if `c` is one of the eight recognized
    /// characters.
    pub open spec fn parse(c: char) -> Option<Token> {
        if c == '>' {
            Some(Token::IncDataPtr)
        } else if c == '<' {
            Some(Token::DecDataPtr)
        } else if c == '+' {
            Some(Token::IncValue)
        } else if c == '-' {
            Some(Token::DecValue)
        } else if c == '.' {
            Some(Token::Output)
        } else if c == ',' {
            Some(Token::GetInput)
        } else if c == '[' {
            Some(Token::JumpForward)
        } else if c == ']' {
            Some(Token::JumpBackward)
        } else {
            None
        }
    }

    /// Returns the source character that denotes this instruction.
    pub fn to_char(self) -> (c: char)
        ensures
            c == self.symbol(),
    {
        match self {
            Token::IncDataPtr => '>',
            Token::DecDataPtr => '<',
            Token::IncValue => '+',
            Token::DecValue => '-',
            Token::Output => '.',
            Token::GetInput => ',',
            Token::JumpForward => '[',
            Token::JumpBackward => ']',
        }
    }
}

impl TryFrom<char> for Token {
    type Error = char;

    /// Recognizes one source character; any other character is handed back
    /// as the error.
    fn try_from(value: char) -> (r: Result<Token, char>)
        ensures
            r == match Token::parse(value) {
                Some(token) => Ok::<Token, char>(token),
                None => Err::<Token, char>(value),
            },
    {
        match value {
            '>' => Ok(Token::IncDataPtr),
            '<' => Ok(Token::DecDataPtr),
            '+' => Ok(Token::IncValue),
            '-' => Ok(Token::DecValue),
            '.' => Ok(Token::Output),
            ',' => Ok(Token::GetInput),
            '[' => Ok(Token::JumpForward),
            ']' => Ok(Token::JumpBackward),
            c => Err(c),
        }
    }
}

impl TryFromSpecImpl<char> for Token {
    open spec fn obeys_try_from_spec() -> bool {
        true
    }

    open spec fn try_from_spec(v: char) -> Result<Token, char> {
        match Token::parse(v) {
            Some(t) => Ok(t),
            None => Err(v),
        }
    }
}

/// Every instruction is recovered from its own source character.
pub proof fn lemma_parse_symbol(t: Token)
    ensures
        Token::parse(t.symbol()) == Some(t),
{
}

/// A recognized character is the symbol of the instruction it denotes.
pub proof fn lemma_symbol_parse(c: char)
    requires
        Token::parse(c) is Some,
    ensures
        Token::parse(c)->0.symbol() == c,
{
}

} // verus!

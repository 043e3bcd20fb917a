//! From source text to instructions.
//!
//! Only the eight instruction characters mean anything; every other
//! character is a comment and is dropped without complaint.

use vstd::prelude::*;
use crate::token::{lemma_parse_symbol, lemma_symbol_parse, Token};

verus! {

/// The recognizer applied to each character of the source text.
pub open spec fn recognizer() -> spec_fn(char) -> Option<Token> {
    |c: char| Token::parse(c)
}

/// Whether `c` is one of the eight instruction characters.
pub open spec fn recognized(c: char) -> bool {
    Token::parse(c) is Some
}

/// The instructions that a source text denotes: one per recognized
/// character, in the order of the text, all other characters dropped.
pub open spec fn tokens_of(text: Seq<char>) -> Seq<Token> {
    text.filter_map(recognizer())
}

/// The source text that spells out a sequence of instructions, one character
/// each.
pub open spec fn source_of(tokens: Seq<Token>) -> Seq<char> {
    tokens.map_values(|t: Token| t.symbol())
}

/// Converts source text into the instructions it denotes.
///
/// Never fails: text without any instruction character yields an empty
/// program.
pub fn tokenize_source(input: &str) -> (tokens: Vec<Token>)
    ensures
        tokens@ == tokens_of(input@),
{
    let mut tokens: Vec<Token> = Vec::new();
    for c in it: input.chars()
        invariant
            it.seq() == input@,
            tokens@ == tokens_of(input@.take(it.index())),
    {
        proof {
            input@.lemma_filter_map_take_succ(recognizer(), it.index());
        }
        if let Ok(token) = Token::try_from(c) {
            tokens.push(token);
        }
    }
    assert(input@.take(input@.len() as int) =~= input@);
    tokens
}

/// Tokenizing the spelling of a program gives the program back.
pub proof fn lemma_tokens_of_source(tokens: Seq<Token>)
    ensures
        tokens_of(source_of(tokens)) == tokens,
    decreases tokens.len(),
{
    let text = source_of(tokens);
    if tokens.len() > 0 {
        let front = tokens.drop_last();
        assert(text.drop_last() =~= source_of(front));
        lemma_parse_symbol(tokens.last());
        lemma_tokens_of_source(front);
        assert(front + seq![tokens.last()] =~= tokens);
    }
}

/// Spelling out the tokens of a text gives the text with every
/// unrecognized character removed.
pub proof fn lemma_source_of_tokens(text: Seq<char>)
    ensures
        source_of(tokens_of(text)) == text.filter(|c: char| recognized(c)),
    decreases text.len(),
{
    let keep = |c: char| recognized(c);
    reveal(Seq::filter);
    if text.len() > 0 {
        let front = text.drop_last();
        lemma_source_of_tokens(front);
        match Token::parse(text.last()) {
            Some(t) => {
                lemma_symbol_parse(text.last());
                assert(source_of(tokens_of(front) + seq![t]) =~= source_of(tokens_of(front)).push(
                    text.last(),
                ));
            },
            None => {},
        }
    } else {
        assert(source_of(tokens_of(text)) =~= text.filter(keep));
    }
}

/// Tokenizing is idempotent under re-serialization: spelling out the tokens
/// of a text and tokenizing that spelling gives the same tokens again.
pub proof fn lemma_tokenize_idempotent(text: Seq<char>)
    ensures
        tokens_of(source_of(tokens_of(text))) == tokens_of(text),
        tokens_of(text.filter(|c: char| recognized(c))) == tokens_of(text),
{
    lemma_tokens_of_source(tokens_of(text));
    lemma_source_of_tokens(text);
}

} // verus!

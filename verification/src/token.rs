//! The token taxonomy: the smallest classified units of source text that the
//! tokenizer produces and the grammar consumes.

use vstd::prelude::*;
use num_bigint::BigInt;

verus! {

/// One lexical unit. Literal variants carry their value: identifiers and
/// strings their text, integers an arbitrary-precision value. A float literal
/// carries the exact scanned text of the literal (digits, point, exponent);
/// turning that text into an IEEE double is left to the consumer, so that the
/// verified core stays free of floating point.
#[derive(Debug)]
pub enum Tok {
    // Literals.
    Ident { ident: String },
    Int { value: BigInt },
    Float { value: String },
    Str { value: String },
    // Structural characters.
    Lparen,
    Rparen,
    Lbrace,
    Rbrace,
    Lbracket,
    Rbracket,
    Comma,
    Dot,
    Newline,
    // Operators, each with its augmented-assignment form where one exists.
    Plus,
    PlusEqual,
    Minus,
    MinusEqual,
    Star,
    StarEqual,
    DoubleStar,
    DoubleStarEqual,
    Slash,
    SlashEqual,
    Percent,
    PercentEqual,
    Equal,
    DoubleEqual,
    Less,
    LessEqual,
    Greater,
    GreaterEqual,
    NotEqual,
    // Keywords, resolved through the keyword table.
    And,
    Break,
    Case,
    Class,
    Continue,
    Def,
    Do,
    Elif,
    Else,
    End,
    False,
    For,
    From,
    Global,
    If,
    Import,
    In,
    Lambda,
    Module,
    NoneKw,
    Not,
    Or,
    Return,
    SelfKw,
    Super,
    True,
    While,
    Yield,
}

} // verus!

//! Front end of a small scripting-language toolchain: a character-level
//! tokenizer with precise source positions, the token taxonomy, the abstract
//! syntax tree it feeds, and the entry points that turn source text into AST
//! nodes.

pub mod ast;
pub mod bignum;
pub mod lexer;
pub mod location;
pub mod parser;
pub mod token;

//! The abstract syntax tree that the parser builds: tagged variants with
//! exclusively owned, tree-shaped child nodes, produced bottom-up and never
//! mutated afterward.

use vstd::prelude::*;
use num_bigint::BigInt;
use crate::location::Location;

verus! {

/// The top-level result of a parse, one variant per entry point.
#[derive(Debug)]
pub enum Top {
    Program(Program),
    Statement(Located<Statement>),
    Expression(Expression),
}

/// A whole source file: its statements in source order.
#[derive(Debug)]
pub struct Program {
    pub statements: Vec<Located<Statement>>,
}

/// A node paired with the location at which it begins.
#[derive(Debug)]
pub struct Located<T> {
    pub location: Location,
    pub node: T,
}

/// One imported binding: the module it comes from, the symbol taken from it
/// if one is named, and the local alias if one is given.
#[derive(Debug)]
pub struct SingleImport {
    pub module: String,
    pub symbol: Option<String>,
    pub alias: Option<String>,
}

/// A statement.
#[derive(Debug)]
pub enum Statement {
    Break,
    Continue,
    Return { value: Option<Vec<Expression>> },
    Import { import_parts: Vec<SingleImport> },
    Assign { targets: Vec<Expression>, value: Expression },
    AugAssign { target: Box<Expression>, op: Operator, value: Box<Expression> },
    Expression { expression: Expression },
    Global { names: Vec<String> },
    NonLocal { names: Vec<String> },
    If {
        test: Expression,
        body: Vec<Located<Statement>>,
        orelse: Option<Vec<Located<Statement>>>,
    },
    While {
        test: Expression,
        body: Vec<Located<Statement>>,
        orelse: Option<Vec<Located<Statement>>>,
    },
    For {
        target: Expression,
        iter: Vec<Expression>,
        body: Vec<Located<Statement>>,
        orelse: Option<Vec<Located<Statement>>>,
    },
    ClassDef { name: String, body: Vec<Located<Statement>>, keywords: Vec<Keyword> },
    FunctionDef { name: String, args: Parameters, body: Vec<Located<Statement>> },
}

/// An expression. A string literal is carried as the single piece of a
/// `Str` node; a number as a `Number`.
#[derive(Debug)]
pub enum Expression {
    Boolop { a: Box<Expression>, op: Operator, b: Box<Expression> },
    Unop { op: UnaryOperator, a: Box<Expression> },
    Yield { value: Option<Box<Expression>> },
    Compare { a: Box<Expression>, op: Comparison, b: Box<Expression> },
    Call { function: Box<Expression>, args: Vec<Expression>, keywords: Vec<Keyword> },
    Number { value: Number },
    Array { elements: Vec<Expression> },
    HashMap { elements: Vec<(Expression, Expression)> },
    SetLit { elements: Vec<Expression> },
    Str { elements: Vec<Expression> },
    Identifier { name: String },
    Lambda { args: Parameters, body: Box<Expression> },
    True,
    False,
    NoneLit,
}

/// A function's declared parameters: their names, and default values that
/// align with the trailing names.
#[derive(Debug, Default)]
pub struct Parameters {
    pub args: Vec<String>,
    pub defaults: Vec<Expression>,
}

/// A keyword argument at a call site or class definition; without a name it
/// denotes a positional or unpacking form.
#[derive(Debug)]
pub struct Keyword {
    pub name: Option<String>,
    pub value: Expression,
}

/// A binary arithmetic operator.
#[derive(Debug, Clone, Copy, PartialEq, Eq, Structural)]
pub enum Operator {
    Add,
    Sub,
    Mul,
    Div,
    Mod,
    Pow,
}

/// A boolean connective.
#[derive(Debug, Clone, Copy, PartialEq, Eq, Structural)]
pub enum BooleanOperator {
    And,
    Or,
}

/// A unary operator.
#[derive(Debug, Clone, Copy, PartialEq, Eq, Structural)]
pub enum UnaryOperator {
    Pos,
    Neg,
    Not,
}

/// A comparison operator.
#[derive(Debug, Clone, Copy, PartialEq, Eq, Structural)]
pub enum Comparison {
    Equal,
    NotEqual,
    Less,
    LessOrEqual,
    Greater,
    GreaterOrEqual,
    Is,
    IsNot,
}

/// A numeric literal: an arbitrary-precision integer, or a float carried as
/// the literal's scanned text so that the verified core stays free of
/// floating point.
#[derive(Debug)]
pub enum Number {
    Integer { value: BigInt },
    Float { value: String },
}

} // verus!

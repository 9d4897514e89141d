//! The parser: a recursive-descent grammar over the token stream, feeding the
//! AST. Entry points exist for a whole program, a single statement and a
//! single expression; the start rule is chosen by an explicit mode passed
//! alongside the tokens rather than by a hidden marker token.

use vstd::prelude::*;

use crate::ast::{
    Comparison, Expression, Located, Number, Operator, Parameters, Program, SingleImport,
    Statement, Top, UnaryOperator,
};
use crate::bignum::{big_clone, big_value, digits_seq_value, is_digit};
use crate::lexer::{
    first_lex_error, first_lex_error_matches, ident_shaped, int_plus_int_at, int_tok_with,
    keyword_spec, tokenize, LexicalError, Spanned,
};
use crate::location::{loc_at, Location};
use crate::token::Tok;

verus! {

/// A failed parse: the tokenizer stopped at a lexical error, or the grammar
/// rejected the token sequence at a location, or the top-level node did not
/// match the requested entry point (an internal consistency failure that the
/// entry points prove impossible).
#[derive(Debug, Clone, Copy, PartialEq, Eq, Structural)]
pub enum ParseError {
    Lexical { error: LexicalError },
    Syntax { location: Location },
    EntryPointMismatch,
}

/// Which grammar start rule a parse uses.
#[derive(Debug, Clone, Copy, PartialEq, Eq, Structural)]
pub enum StartMode {
    Program,
    Statement,
    Expression,
}

/// Whether the token is an integer literal.
pub open spec fn is_int_tok(t: Tok) -> bool {
    t matches Tok::Int { value }
}

/// The integer carried by an integer literal token.
pub open spec fn int_tok_val(t: Tok) -> int {
    match t {
        Tok::Int { value } => big_value(value),
        _ => 0,
    }
}

/// Whether the expression is an integer literal of the given value.
pub open spec fn int_expr_with(e: Expression, v: int) -> bool {
    e matches Expression::Number { value: nv } && (nv matches Number::Integer { value: bv }
        && big_value(bv) == v)
}

/// Whether the expression is an addition of two integer literals with the
/// given values.
pub open spec fn add_expr_with(e: Expression, av: int, bv: int) -> bool {
    e matches Expression::Boolop { a, op, b } && op == Operator::Add && int_expr_with(*a, av)
        && int_expr_with(*b, bv)
}

/// Whether the token is an identifier.
pub open spec fn is_ident_tok(t: Tok) -> bool {
    t matches Tok::Ident { ident }
}

/// The text carried by an identifier token.
pub open spec fn ident_tok_text(t: Tok) -> Seq<char> {
    match t {
        Tok::Ident { ident } => ident@,
        _ => Seq::empty(),
    }
}

/// Whether the expression is an identifier of the given spelling.
pub open spec fn ident_expr_with(e: Expression, name: Seq<char>) -> bool {
    e matches Expression::Identifier { name: nm } && nm@ == name
}

/// The tokens that can extend a postfix expression.
pub open spec fn extends_postfix(t: Tok) -> bool {
    t == Tok::Lparen
}

/// The tokens that can extend a power expression.
pub open spec fn extends_power(t: Tok) -> bool {
    extends_postfix(t) || t == Tok::DoubleStar
}

/// The tokens that can extend a multiplicative expression.
pub open spec fn extends_term(t: Tok) -> bool {
    extends_power(t) || t == Tok::Star || t == Tok::Slash || t == Tok::Percent
}

/// The tokens that can extend an additive expression.
pub open spec fn extends_arith(t: Tok) -> bool {
    extends_term(t) || t == Tok::Plus || t == Tok::Minus
}

/// The tokens that can extend an expression at any level.
pub open spec fn extends_expr(t: Tok) -> bool {
    extends_arith(t) || t == Tok::DoubleEqual || t == Tok::NotEqual || t == Tok::Less || t
        == Tok::LessEqual || t == Tok::Greater || t == Tok::GreaterEqual
}

/// Guard for the passthrough of a lone integer literal at `p`: nothing after
/// it can extend the expression at the given level's continuation set.
pub open spec fn lone_int_at(toks: Seq<Spanned>, p: int, ext: spec_fn(Tok) -> bool) -> bool {
    let n = toks.len() as int;
    p < n && is_int_tok(toks[p].1) && (p + 1 == n || !ext(toks[p + 1].1))
}

/// Guard for the passthrough of a lone identifier at `p`: nothing after it
/// can extend the expression at the given level's continuation set.
pub open spec fn lone_ident_at(toks: Seq<Spanned>, p: int, ext: spec_fn(Tok) -> bool) -> bool {
    let n = toks.len() as int;
    p < n && is_ident_tok(toks[p].1) && (p + 1 == n || !ext(toks[p + 1].1))
}

/// Guard for an addition of two integer literals at `p`, nothing after.
pub open spec fn add_pair_at(toks: Seq<Spanned>, p: int, ext: spec_fn(Tok) -> bool) -> bool {
    let n = toks.len() as int;
    p + 3 <= n && is_int_tok(toks[p].1) && toks[p + 1].1 == Tok::Plus && is_int_tok(
        toks[p + 2].1,
    ) && (p + 3 == n || !ext(toks[p + 3].1))
}

/// The single tokens that alone form a statement this parser pins exactly:
/// `break`, `continue`, an integer literal, or an identifier.
pub open spec fn single_tok_guard(t: Tok) -> bool {
    t == Tok::Break || t == Tok::Continue || is_int_tok(t) || is_ident_tok(t)
}

/// The statement that one such token parses to.
pub open spec fn single_tok_stmt(t: Tok, node: Statement) -> bool {
    if t == Tok::Break {
        node == Statement::Break
    } else if t == Tok::Continue {
        node == Statement::Continue
    } else if is_int_tok(t) {
        node matches Statement::Expression { expression } && int_expr_with(
            expression,
            int_tok_val(t),
        )
    } else {
        node matches Statement::Expression { expression } && ident_expr_with(
            expression,
            ident_tok_text(t),
        )
    }
}

/// Whether a one-word source forms a statement this parser pins exactly: an
/// identifier-shaped word that is no reserved spelling, or the `break` or
/// `continue` keyword.
pub open spec fn word_stmt_guard(s: Seq<char>) -> bool {
    ident_shaped(s) && (keyword_spec(s) is None || keyword_spec(s) == Some(Tok::Break)
        || keyword_spec(s) == Some(Tok::Continue))
}

/// The statement such a one-word source parses to.
pub open spec fn word_stmt_node(s: Seq<char>, node: Statement) -> bool {
    match keyword_spec(s) {
        Some(k) => (k == Tok::Break && node == Statement::Break) || (k == Tok::Continue && node
            == Statement::Continue),
        None => node matches Statement::Expression { expression } && ident_expr_with(
            expression,
            s,
        ),
    }
}

/// The location a syntax error at token position `pos` reports: the start of
/// the offending token, or the end of the last token at end of input.
fn err_loc(toks: &Vec<Spanned>, pos: usize) -> (r: Location)
    ensures
        pos < toks@.len() ==> r == toks@[pos as int].0,
{
    if pos < toks.len() {
        toks[pos].0
    } else if toks.len() > 0 {
        toks[toks.len() - 1].2
    } else {
        Location::new(1, 1)
    }
}

/// Whether the token at `pos` can begin an expression.
fn starts_expr(toks: &Vec<Spanned>, pos: usize) -> (b: bool)
    requires
        pos <= toks@.len(),
{
    if pos == toks.len() {
        return false;
    }
    match &toks[pos].1 {
        Tok::Int { .. } => true,
        Tok::Float { .. } => true,
        Tok::Str { .. } => true,
        Tok::Ident { .. } => true,
        Tok::True => true,
        Tok::False => true,
        Tok::NoneKw => true,
        Tok::Lparen => true,
        Tok::Lbracket => true,
        Tok::Lbrace => true,
        Tok::Plus => true,
        Tok::Minus => true,
        Tok::Not => true,
        Tok::Yield => true,
        _ => false,
    }
}

/// Which closing bracket a delimited element list ends with.
#[derive(Debug, Clone, Copy, PartialEq, Eq, Structural)]
enum Closer {
    Paren,
    Bracket,
    Brace,
}

/// Parse a comma-separated, possibly empty list of expressions up to and
/// including the given closing bracket; a trailing comma is allowed.
#[verifier::loop_isolation(false)]
fn parse_elements(toks: &Vec<Spanned>, pos: usize, closer: Closer) -> (r: Result<
    (Vec<Expression>, usize),
    ParseError,
>)
    requires
        pos <= toks@.len(),
    ensures
        r matches Ok((es, q)) ==> pos < q <= toks@.len(),
    decreases toks@.len() - pos, 8int,
{
    let mut elements: Vec<Expression> = Vec::new();
    let mut q = pos;
    loop
        invariant
            pos <= q <= toks@.len(),
        decreases toks@.len() - q,
    {
        if q == toks.len() {
            return Err(ParseError::Syntax { location: err_loc(toks, q) });
        }
        let closed = match (&toks[q].1, closer) {
            (Tok::Rparen, Closer::Paren) => true,
            (Tok::Rbracket, Closer::Bracket) => true,
            (Tok::Rbrace, Closer::Brace) => true,
            _ => false,
        };
        if closed {
            return Ok((elements, q + 1));
        }
        let parsed = parse_expr(toks, q)?;
        elements.push(parsed.0);
        q = parsed.1;
        if q < toks.len() {
            let comma = match &toks[q].1 {
                Tok::Comma => true,
                _ => false,
            };
            if comma {
                q = q + 1;
                continue ;
            }
        }
        if q == toks.len() {
            return Err(ParseError::Syntax { location: err_loc(toks, q) });
        }
        let closed2 = match (&toks[q].1, closer) {
            (Tok::Rparen, Closer::Paren) => true,
            (Tok::Rbracket, Closer::Bracket) => true,
            (Tok::Rbrace, Closer::Brace) => true,
            _ => false,
        };
        if closed2 {
            return Ok((elements, q + 1));
        }
        return Err(ParseError::Syntax { location: err_loc(toks, q) });
    }
}

/// Parse an atom: a literal, an identifier, `true`, `false`, `none`, a
/// `yield`, a parenthesized expression, an array literal, or a brace
/// literal. An empty brace literal is an empty map; a nonempty one is a set
/// (this token language has no key-value separator). A string literal
/// becomes a `Str` node whose single element is an identifier node carrying
/// its text.
#[verifier::loop_isolation(false)]
fn parse_atom(toks: &Vec<Spanned>, pos: usize) -> (r: Result<(Expression, usize), ParseError>)
    requires
        pos <= toks@.len(),
    ensures
        r matches Ok((e, q)) ==> pos < q <= toks@.len(),
        ({
            let p = pos as int;
            p < toks@.len() && is_int_tok(toks@[p].1) ==> (r matches Ok((e, q)) && q == p + 1
                && int_expr_with(e, int_tok_val(toks@[p].1)))
        }),
        ({
            let p = pos as int;
            p < toks@.len() && is_ident_tok(toks@[p].1) ==> (r matches Ok((e, q)) && q == p + 1
                && ident_expr_with(e, ident_tok_text(toks@[p].1)))
        }),
    decreases toks@.len() - pos, 0int,
{
    if pos == toks.len() {
        return Err(ParseError::Syntax { location: err_loc(toks, pos) });
    }
    let sp = &toks[pos];
    match &sp.1 {
        Tok::Int { value } => Ok(
            (Expression::Number { value: Number::Integer { value: big_clone(value) } }, pos + 1),
        ),
        Tok::Float { value } => Ok(
            (Expression::Number { value: Number::Float { value: value.clone() } }, pos + 1),
        ),
        Tok::Str { value } => Ok(
            (
                Expression::Str {
                    elements: vec![Expression::Identifier { name: value.clone() }],
                },
                pos + 1,
            ),
        ),
        Tok::Ident { ident } => Ok((Expression::Identifier { name: ident.clone() }, pos + 1)),
        Tok::True => Ok((Expression::True, pos + 1)),
        Tok::False => Ok((Expression::False, pos + 1)),
        Tok::NoneKw => Ok((Expression::NoneLit, pos + 1)),
        Tok::Yield => {
            if starts_expr(toks, pos + 1) {
                let parsed = parse_expr(toks, pos + 1)?;
                Ok((Expression::Yield { value: Some(Box::new(parsed.0)) }, parsed.1))
            } else {
                Ok((Expression::Yield { value: None }, pos + 1))
            }
        },
        Tok::Lparen => {
            let parsed = parse_expr(toks, pos + 1)?;
            let q = parsed.1;
            if q < toks.len() {
                let closed = match &toks[q].1 {
                    Tok::Rparen => true,
                    _ => false,
                };
                if closed {
                    return Ok((parsed.0, q + 1));
                }
            }
            Err(ParseError::Syntax { location: err_loc(toks, q) })
        },
        Tok::Lbracket => {
            let parsed = parse_elements(toks, pos + 1, Closer::Bracket)?;
            Ok((Expression::Array { elements: parsed.0 }, parsed.1))
        },
        Tok::Lbrace => {
            let parsed = parse_elements(toks, pos + 1, Closer::Brace)?;
            let elements = parsed.0;
            if elements.len() == 0 {
                Ok((Expression::HashMap { elements: Vec::new() }, parsed.1))
            } else {
                Ok((Expression::SetLit { elements }, parsed.1))
            }
        },
        _ => Err(ParseError::Syntax { location: sp.0 }),
    }
}

/// Parse a postfix expression: an atom followed by any number of call
/// argument lists.
#[verifier::loop_isolation(false)]
fn parse_postfix(toks: &Vec<Spanned>, pos: usize) -> (r: Result<
    (Expression, usize),
    ParseError,
>)
    requires
        pos <= toks@.len(),
    ensures
        r matches Ok((e, q)) ==> pos < q <= toks@.len(),
        lone_int_at(toks@, pos as int, |t: Tok| extends_postfix(t)) ==> (r matches Ok((e, q))
            && q == pos + 1 && int_expr_with(e, int_tok_val(toks@[pos as int].1))),
        lone_ident_at(toks@, pos as int, |t: Tok| extends_postfix(t)) ==> (r matches Ok((e, q))
            && q == pos + 1 && ident_expr_with(e, ident_tok_text(toks@[pos as int].1))),
    decreases toks@.len() - pos, 1int,
{
    let parsed = parse_atom(toks, pos)?;
    let mut e = parsed.0;
    let mut q = parsed.1;
    loop
        invariant
            pos < q <= toks@.len(),
            lone_int_at(toks@, pos as int, |t: Tok| extends_postfix(t)) ==> (q == pos + 1
                && int_expr_with(e, int_tok_val(toks@[pos as int].1))),
            lone_ident_at(toks@, pos as int, |t: Tok| extends_postfix(t)) ==> (q == pos + 1
                && ident_expr_with(e, ident_tok_text(toks@[pos as int].1))),
        decreases toks@.len() - q,
    {
        if q == toks.len() {
            return Ok((e, q));
        }
        let open = match &toks[q].1 {
            Tok::Lparen => true,
            _ => false,
        };
        if !open {
            return Ok((e, q));
        }
        let parsed_args = parse_elements(toks, q + 1, Closer::Paren)?;
        e = Expression::Call {
            function: Box::new(e),
            args: parsed_args.0,
            keywords: Vec::new(),
        };
        q = parsed_args.1;
    }
}

/// Parse a power expression: a postfix expression, optionally raised by
/// `**` to a unary expression; the operator is right-associative.
#[verifier::loop_isolation(false)]
fn parse_power(toks: &Vec<Spanned>, pos: usize) -> (r: Result<(Expression, usize), ParseError>)
    requires
        pos <= toks@.len(),
    ensures
        r matches Ok((e, q)) ==> pos < q <= toks@.len(),
        lone_int_at(toks@, pos as int, |t: Tok| extends_power(t)) ==> (r matches Ok((e, q)) && q
            == pos + 1 && int_expr_with(e, int_tok_val(toks@[pos as int].1))),
        lone_ident_at(toks@, pos as int, |t: Tok| extends_power(t)) ==> (r matches Ok((e, q))
            && q == pos + 1 && ident_expr_with(e, ident_tok_text(toks@[pos as int].1))),
    decreases toks@.len() - pos, 2int,
{
    let parsed = parse_postfix(toks, pos)?;
    let q = parsed.1;
    if q < toks.len() {
        let dstar = match &toks[q].1 {
            Tok::DoubleStar => true,
            _ => false,
        };
        if dstar {
            let rhs = parse_factor(toks, q + 1)?;
            return Ok(
                (
                    Expression::Boolop {
                        a: Box::new(parsed.0),
                        op: Operator::Pow,
                        b: Box::new(rhs.0),
                    },
                    rhs.1,
                ),
            );
        }
    }
    Ok((parsed.0, q))
}

/// Parse a unary expression: unary plus, minus or `not` applied to a unary
/// expression, or a power expression.
#[verifier::loop_isolation(false)]
fn parse_factor(toks: &Vec<Spanned>, pos: usize) -> (r: Result<
    (Expression, usize),
    ParseError,
>)
    requires
        pos <= toks@.len(),
    ensures
        r matches Ok((e, q)) ==> pos < q <= toks@.len(),
        lone_int_at(toks@, pos as int, |t: Tok| extends_power(t)) ==> (r matches Ok((e, q)) && q
            == pos + 1 && int_expr_with(e, int_tok_val(toks@[pos as int].1))),
        lone_ident_at(toks@, pos as int, |t: Tok| extends_power(t)) ==> (r matches Ok((e, q))
            && q == pos + 1 && ident_expr_with(e, ident_tok_text(toks@[pos as int].1))),
    decreases toks@.len() - pos, 3int,
{
    if pos < toks.len() {
        let unop = match &toks[pos].1 {
            Tok::Plus => Some(UnaryOperator::Pos),
            Tok::Minus => Some(UnaryOperator::Neg),
            Tok::Not => Some(UnaryOperator::Not),
            _ => None,
        };
        if let Some(op) = unop {
            let parsed = parse_factor(toks, pos + 1)?;
            return Ok((Expression::Unop { op, a: Box::new(parsed.0) }, parsed.1));
        }
    }
    parse_power(toks, pos)
}

/// Parse a multiplicative expression: unary expressions joined left to right
/// by `*`, `/` or `%`.
#[verifier::loop_isolation(false)]
fn parse_term(toks: &Vec<Spanned>, pos: usize) -> (r: Result<(Expression, usize), ParseError>)
    requires
        pos <= toks@.len(),
    ensures
        r matches Ok((e, q)) ==> pos < q <= toks@.len(),
        lone_int_at(toks@, pos as int, |t: Tok| extends_term(t)) ==> (r matches Ok((e, q)) && q
            == pos + 1 && int_expr_with(e, int_tok_val(toks@[pos as int].1))),
        lone_ident_at(toks@, pos as int, |t: Tok| extends_term(t)) ==> (r matches Ok((e, q))
            && q == pos + 1 && ident_expr_with(e, ident_tok_text(toks@[pos as int].1))),
    decreases toks@.len() - pos, 4int,
{
    let parsed = parse_factor(toks, pos)?;
    let mut e = parsed.0;
    let mut q = parsed.1;
    loop
        invariant
            pos < q <= toks@.len(),
            lone_int_at(toks@, pos as int, |t: Tok| extends_term(t)) ==> (q == pos + 1
                && int_expr_with(e, int_tok_val(toks@[pos as int].1))),
            lone_ident_at(toks@, pos as int, |t: Tok| extends_term(t)) ==> (q == pos + 1
                && ident_expr_with(e, ident_tok_text(toks@[pos as int].1))),
        decreases toks@.len() - q,
    {
        if q == toks.len() {
            return Ok((e, q));
        }
        let op = match &toks[q].1 {
            Tok::Star => Some(Operator::Mul),
            Tok::Slash => Some(Operator::Div),
            Tok::Percent => Some(Operator::Mod),
            _ => None,
        };
        match op {
            Some(op) => {
                let rhs = parse_factor(toks, q + 1)?;
                e = Expression::Boolop { a: Box::new(e), op, b: Box::new(rhs.0) };
                q = rhs.1;
            },
            None => {
                return Ok((e, q));
            },
        }
    }
}

/// Parse an additive expression: multiplicative expressions joined left to
/// right by `+` or `-`. Adding two integer literals yields the binary
/// arithmetic node combining exactly their values.
#[verifier::loop_isolation(false)]
fn parse_arith(toks: &Vec<Spanned>, pos: usize) -> (r: Result<(Expression, usize), ParseError>)
    requires
        pos <= toks@.len(),
    ensures
        r matches Ok((e, q)) ==> pos < q <= toks@.len(),
        lone_int_at(toks@, pos as int, |t: Tok| extends_arith(t)) ==> (r matches Ok((e, q)) && q
            == pos + 1 && int_expr_with(e, int_tok_val(toks@[pos as int].1))),
        lone_ident_at(toks@, pos as int, |t: Tok| extends_arith(t)) ==> (r matches Ok((e, q))
            && q == pos + 1 && ident_expr_with(e, ident_tok_text(toks@[pos as int].1))),
        add_pair_at(toks@, pos as int, |t: Tok| extends_arith(t)) ==> (r matches Ok((e, q)) && q
            == pos + 3 && add_expr_with(
            e,
            int_tok_val(toks@[pos as int].1),
            int_tok_val(toks@[pos + 2].1),
        )),
    decreases toks@.len() - pos, 5int,
{
    let parsed = parse_term(toks, pos)?;
    let mut e = parsed.0;
    let mut q = parsed.1;
    loop
        invariant
            pos < q <= toks@.len(),
            lone_int_at(toks@, pos as int, |t: Tok| extends_arith(t)) ==> (q == pos + 1
                && int_expr_with(e, int_tok_val(toks@[pos as int].1))),
            lone_ident_at(toks@, pos as int, |t: Tok| extends_arith(t)) ==> (q == pos + 1
                && ident_expr_with(e, ident_tok_text(toks@[pos as int].1))),
            add_pair_at(toks@, pos as int, |t: Tok| extends_arith(t)) ==> ((q == pos + 1
                && int_expr_with(e, int_tok_val(toks@[pos as int].1))) || (q == pos + 3
                && add_expr_with(
                e,
                int_tok_val(toks@[pos as int].1),
                int_tok_val(toks@[pos + 2].1),
            ))),
        decreases toks@.len() - q,
    {
        if q == toks.len() {
            return Ok((e, q));
        }
        let op = match &toks[q].1 {
            Tok::Plus => Some(Operator::Add),
            Tok::Minus => Some(Operator::Sub),
            _ => None,
        };
        match op {
            Some(op) => {
                let rhs = parse_term(toks, q + 1)?;
                e = Expression::Boolop { a: Box::new(e), op, b: Box::new(rhs.0) };
                q = rhs.1;
            },
            None => {
                return Ok((e, q));
            },
        }
    }
}

/// Parse an expression: additive expressions joined left to right by
/// comparison operators.
#[verifier::loop_isolation(false)]
fn parse_expr(toks: &Vec<Spanned>, pos: usize) -> (r: Result<(Expression, usize), ParseError>)
    requires
        pos <= toks@.len(),
    ensures
        r matches Ok((e, q)) ==> pos < q <= toks@.len(),
        lone_int_at(toks@, pos as int, |t: Tok| extends_expr(t)) ==> (r matches Ok((e, q)) && q
            == pos + 1 && int_expr_with(e, int_tok_val(toks@[pos as int].1))),
        lone_ident_at(toks@, pos as int, |t: Tok| extends_expr(t)) ==> (r matches Ok((e, q))
            && q == pos + 1 && ident_expr_with(e, ident_tok_text(toks@[pos as int].1))),
        add_pair_at(toks@, pos as int, |t: Tok| extends_expr(t)) ==> (r matches Ok((e, q)) && q
            == pos + 3 && add_expr_with(
            e,
            int_tok_val(toks@[pos as int].1),
            int_tok_val(toks@[pos + 2].1),
        )),
    decreases toks@.len() - pos, 6int,
{
    let parsed = parse_arith(toks, pos)?;
    let mut e = parsed.0;
    let mut q = parsed.1;
    loop
        invariant
            pos < q <= toks@.len(),
            lone_int_at(toks@, pos as int, |t: Tok| extends_expr(t)) ==> (q == pos + 1
                && int_expr_with(e, int_tok_val(toks@[pos as int].1))),
            lone_ident_at(toks@, pos as int, |t: Tok| extends_expr(t)) ==> (q == pos + 1
                && ident_expr_with(e, ident_tok_text(toks@[pos as int].1))),
            add_pair_at(toks@, pos as int, |t: Tok| extends_expr(t)) ==> (q == pos + 3
                && add_expr_with(
                e,
                int_tok_val(toks@[pos as int].1),
                int_tok_val(toks@[pos + 2].1),
            )),
        decreases toks@.len() - q,
    {
        if q == toks.len() {
            return Ok((e, q));
        }
        let op = match &toks[q].1 {
            Tok::DoubleEqual => Some(Comparison::Equal),
            Tok::NotEqual => Some(Comparison::NotEqual),
            Tok::Less => Some(Comparison::Less),
            Tok::LessEqual => Some(Comparison::LessOrEqual),
            Tok::Greater => Some(Comparison::Greater),
            Tok::GreaterEqual => Some(Comparison::GreaterOrEqual),
            _ => None,
        };
        match op {
            Some(op) => {
                let rhs = parse_arith(toks, q + 1)?;
                e = Expression::Compare { a: Box::new(e), op, b: Box::new(rhs.0) };
                q = rhs.1;
            },
            None => {
                return Ok((e, q));
            },
        }
    }
}

/// Parse a nonempty comma-separated expression list.
#[verifier::loop_isolation(false)]
fn parse_exprlist(toks: &Vec<Spanned>, pos: usize) -> (r: Result<
    (Vec<Expression>, usize),
    ParseError,
>)
    requires
        pos <= toks@.len(),
    ensures
        r matches Ok((es, q)) ==> pos < q <= toks@.len(),
    decreases toks@.len() - pos, 9int,
{
    let parsed = parse_expr(toks, pos)?;
    let mut list: Vec<Expression> = Vec::new();
    list.push(parsed.0);
    let mut q = parsed.1;
    loop
        invariant
            pos < q <= toks@.len(),
        decreases toks@.len() - q,
    {
        if q == toks.len() {
            return Ok((list, q));
        }
        let comma = match &toks[q].1 {
            Tok::Comma => true,
            _ => false,
        };
        if !comma {
            return Ok((list, q));
        }
        let next = parse_expr(toks, q + 1)?;
        list.push(next.0);
        q = next.1;
    }
}

/// Parse a nonempty comma-separated list of identifiers.
#[verifier::loop_isolation(false)]
fn parse_namelist(toks: &Vec<Spanned>, pos: usize) -> (r: Result<
    (Vec<String>, usize),
    ParseError,
>)
    requires
        pos <= toks@.len(),
    ensures
        r matches Ok((ns, q)) ==> pos < q <= toks@.len(),
    decreases toks@.len() - pos, 0int,
{
    if pos == toks.len() {
        return Err(ParseError::Syntax { location: err_loc(toks, pos) });
    }
    let mut names: Vec<String> = Vec::new();
    match &toks[pos].1 {
        Tok::Ident { ident } => {
            names.push(ident.clone());
        },
        _ => {
            return Err(ParseError::Syntax { location: err_loc(toks, pos) });
        },
    }
    let mut q = pos + 1;
    loop
        invariant
            pos < q <= toks@.len(),
        decreases toks@.len() - q,
    {
        if q == toks.len() {
            return Ok((names, q));
        }
        let comma = match &toks[q].1 {
            Tok::Comma => true,
            _ => false,
        };
        if !comma {
            return Ok((names, q));
        }
        if q + 1 == toks.len() {
            return Err(ParseError::Syntax { location: err_loc(toks, q + 1) });
        }
        match &toks[q + 1].1 {
            Tok::Ident { ident } => {
                names.push(ident.clone());
            },
            _ => {
                return Err(ParseError::Syntax { location: err_loc(toks, q + 1) });
            },
        }
        q = q + 2;
    }
}

/// Parse a parenthesized parameter list: names, each optionally given a
/// default value; the defaults collected align with the trailing names.
#[verifier::loop_isolation(false)]
fn parse_params(toks: &Vec<Spanned>, pos: usize) -> (r: Result<
    (Parameters, usize),
    ParseError,
>)
    requires
        pos <= toks@.len(),
    ensures
        r matches Ok((ps, q)) ==> pos < q <= toks@.len(),
    decreases toks@.len() - pos, 9int,
{
    if pos == toks.len() {
        return Err(ParseError::Syntax { location: err_loc(toks, pos) });
    }
    let open = match &toks[pos].1 {
        Tok::Lparen => true,
        _ => false,
    };
    if !open {
        return Err(ParseError::Syntax { location: err_loc(toks, pos) });
    }
    let mut args: Vec<String> = Vec::new();
    let mut defaults: Vec<Expression> = Vec::new();
    let mut q = pos + 1;
    loop
        invariant
            pos < q <= toks@.len(),
        decreases toks@.len() - q,
    {
        if q == toks.len() {
            return Err(ParseError::Syntax { location: err_loc(toks, q) });
        }
        let closed = match &toks[q].1 {
            Tok::Rparen => true,
            _ => false,
        };
        if closed {
            return Ok((Parameters { args, defaults }, q + 1));
        }
        match &toks[q].1 {
            Tok::Ident { ident } => {
                args.push(ident.clone());
            },
            _ => {
                return Err(ParseError::Syntax { location: err_loc(toks, q) });
            },
        }
        q = q + 1;
        if q < toks.len() {
            let eq = match &toks[q].1 {
                Tok::Equal => true,
                _ => false,
            };
            if eq {
                let parsed = parse_expr(toks, q + 1)?;
                defaults.push(parsed.0);
                q = parsed.1;
            }
        }
        if q < toks.len() {
            let comma = match &toks[q].1 {
                Tok::Comma => true,
                _ => false,
            };
            if comma {
                q = q + 1;
            }
        }
    }
}

/// Whether the token closes or continues a block: `end`, `else` or `elif`.
fn is_block_ender(t: &Tok) -> (b: bool)
    ensures
        b == (*t == Tok::End || *t == Tok::Else || *t == Tok::Elif),
{
    match t {
        Tok::End => true,
        Tok::Else => true,
        Tok::Elif => true,
        _ => false,
    }
}

/// Parse an `if`/`elif` chain starting at the `if` or `elif` token: the
/// test, an optional `do`, the body block, and then `end`, an `else` block
/// ended by `end`, or a further `elif` that becomes a nested `If` in the
/// `orelse` slot.
#[verifier::loop_isolation(false)]
fn parse_if_chain(toks: &Vec<Spanned>, pos: usize) -> (r: Result<
    (Located<Statement>, usize),
    ParseError,
>)
    requires
        pos <= toks@.len(),
    ensures
        r matches Ok((ls, q)) ==> pos < q <= toks@.len(),
    decreases toks@.len() - pos, 10int,
{
    if pos == toks.len() {
        return Err(ParseError::Syntax { location: err_loc(toks, pos) });
    }
    let sp = &toks[pos];
    let location = sp.0;
    let test_parsed = parse_expr(toks, pos + 1)?;
    let test = test_parsed.0;
    let mut q = test_parsed.1;
    if q < toks.len() {
        let is_do = match &toks[q].1 {
            Tok::Do => true,
            _ => false,
        };
        if is_do {
            q = q + 1;
        }
    }
    let body_parsed = parse_block(toks, q)?;
    let body = body_parsed.0;
    let q2 = body_parsed.1;
    if q2 == toks.len() {
        return Err(ParseError::Syntax { location: err_loc(toks, q2) });
    }
    match &toks[q2].1 {
        Tok::End => Ok(
            (Located { location, node: Statement::If { test, body, orelse: None } }, q2 + 1),
        ),
        Tok::Else => {
            let orelse_parsed = parse_block(toks, q2 + 1)?;
            let q3 = orelse_parsed.1;
            if q3 == toks.len() {
                return Err(ParseError::Syntax { location: err_loc(toks, q3) });
            }
            let ended = match &toks[q3].1 {
                Tok::End => true,
                _ => false,
            };
            if !ended {
                return Err(ParseError::Syntax { location: err_loc(toks, q3) });
            }
            Ok(
                (
                    Located {
                        location,
                        node: Statement::If { test, body, orelse: Some(orelse_parsed.0) },
                    },
                    q3 + 1,
                ),
            )
        },
        Tok::Elif => {
            let nested = parse_if_chain(toks, q2)?;
            let mut orelse: Vec<Located<Statement>> = Vec::new();
            orelse.push(nested.0);
            Ok(
                (
                    Located { location, node: Statement::If { test, body, orelse: Some(orelse) } },
                    nested.1,
                ),
            )
        },
        _ => Err(ParseError::Syntax { location: err_loc(toks, q2) }),
    }
}

/// Parse one statement starting at `pos`, wrapped with its start location.
#[verifier::loop_isolation(false)]
fn parse_statement_at(toks: &Vec<Spanned>, pos: usize) -> (r: Result<
    (Located<Statement>, usize),
    ParseError,
>)
    requires
        pos <= toks@.len(),
    ensures
        r matches Ok((ls, q)) ==> pos < q <= toks@.len(),
        ({
            let p = pos as int;
            p < toks@.len() && is_int_tok(toks@[p].1) && p + 1 == toks@.len() ==> (
            r matches Ok((ls, q)) && q == p + 1 && ls.location == toks@[p].0 && (
            ls.node matches Statement::Expression { expression } && int_expr_with(
                expression,
                int_tok_val(toks@[p].1),
            )))
        }),
        ({
            let p = pos as int;
            p < toks@.len() && is_ident_tok(toks@[p].1) && p + 1 == toks@.len() ==> (
            r matches Ok((ls, q)) && q == p + 1 && ls.location == toks@[p].0 && (
            ls.node matches Statement::Expression { expression } && ident_expr_with(
                expression,
                ident_tok_text(toks@[p].1),
            )))
        }),
        ({
            let p = pos as int;
            p < toks@.len() && toks@[p].1 == Tok::Break ==> (r matches Ok((ls, q)) && q == p + 1
                && ls.location == toks@[p].0 && ls.node == Statement::Break)
        }),
        ({
            let p = pos as int;
            p < toks@.len() && toks@[p].1 == Tok::Continue ==> (r matches Ok((ls, q)) && q == p
                + 1 && ls.location == toks@[p].0 && ls.node == Statement::Continue)
        }),
    decreases toks@.len() - pos, 12int,
{
    if pos == toks.len() {
        return Err(ParseError::Syntax { location: err_loc(toks, pos) });
    }
    let sp = &toks[pos];
    let location = sp.0;
    match &sp.1 {
        Tok::Break => Ok((Located { location, node: Statement::Break }, pos + 1)),
        Tok::Continue => Ok((Located { location, node: Statement::Continue }, pos + 1)),
        Tok::Return => {
            if starts_expr(toks, pos + 1) {
                let parsed = parse_exprlist(toks, pos + 1)?;
                Ok(
                    (
                        Located { location, node: Statement::Return { value: Some(parsed.0) } },
                        parsed.1,
                    ),
                )
            } else {
                Ok((Located { location, node: Statement::Return { value: None } }, pos + 1))
            }
        },
        Tok::Global => {
            let parsed = parse_namelist(toks, pos + 1)?;
            Ok((Located { location, node: Statement::Global { names: parsed.0 } }, parsed.1))
        },
        Tok::Import => {
            let parsed = parse_namelist(toks, pos + 1)?;
            let names = parsed.0;
            let mut import_parts: Vec<SingleImport> = Vec::new();
            let mut i: usize = 0;
            while i < names.len()
                invariant
                    i <= names@.len(),
                decreases names@.len() - i,
            {
                import_parts.push(
                    SingleImport { module: names[i].clone(), symbol: None, alias: None },
                );
                i = i + 1;
            }
            Ok((Located { location, node: Statement::Import { import_parts } }, parsed.1))
        },
        Tok::From => {
            if pos + 1 == toks.len() {
                return Err(ParseError::Syntax { location: err_loc(toks, pos + 1) });
            }
            let module = match &toks[pos + 1].1 {
                Tok::Ident { ident } => ident.clone(),
                _ => {
                    return Err(ParseError::Syntax { location: err_loc(toks, pos + 1) });
                },
            };
            if pos + 2 == toks.len() {
                return Err(ParseError::Syntax { location: err_loc(toks, pos + 2) });
            }
            let has_import = match &toks[pos + 2].1 {
                Tok::Import => true,
                _ => false,
            };
            if !has_import {
                return Err(ParseError::Syntax { location: err_loc(toks, pos + 2) });
            }
            if pos + 3 == toks.len() {
                return Err(ParseError::Syntax { location: err_loc(toks, pos + 3) });
            }
            let symbol = match &toks[pos + 3].1 {
                Tok::Ident { ident } => ident.clone(),
                _ => {
                    return Err(ParseError::Syntax { location: err_loc(toks, pos + 3) });
                },
            };
            let mut import_parts: Vec<SingleImport> = Vec::new();
            import_parts.push(SingleImport { module, symbol: Some(symbol), alias: None });
            Ok((Located { location, node: Statement::Import { import_parts } }, pos + 4))
        },
        Tok::If => parse_if_chain(toks, pos),
        Tok::While => {
            let test_parsed = parse_expr(toks, pos + 1)?;
            let test = test_parsed.0;
            let mut q = test_parsed.1;
            if q < toks.len() {
                let is_do = match &toks[q].1 {
                    Tok::Do => true,
                    _ => false,
                };
                if is_do {
                    q = q + 1;
                }
            }
            let body_parsed = parse_block(toks, q)?;
            let body = body_parsed.0;
            let q2 = body_parsed.1;
            if q2 == toks.len() {
                return Err(ParseError::Syntax { location: err_loc(toks, q2) });
            }
            match &toks[q2].1 {
                Tok::End => Ok(
                    (
                        Located { location, node: Statement::While { test, body, orelse: None } },
                        q2 + 1,
                    ),
                ),
                Tok::Else => {
                    let orelse_parsed = parse_block(toks, q2 + 1)?;
                    let q3 = orelse_parsed.1;
                    if q3 == toks.len() {
                        return Err(ParseError::Syntax { location: err_loc(toks, q3) });
                    }
                    let ended = match &toks[q3].1 {
                        Tok::End => true,
                        _ => false,
                    };
                    if !ended {
                        return Err(ParseError::Syntax { location: err_loc(toks, q3) });
                    }
                    Ok(
                        (
                            Located {
                                location,
                                node: Statement::While {
                                    test,
                                    body,
                                    orelse: Some(orelse_parsed.0),
                                },
                            },
                            q3 + 1,
                        ),
                    )
                },
                _ => Err(ParseError::Syntax { location: err_loc(toks, q2) }),
            }
        },
        Tok::For => {
            let target_parsed = parse_expr(toks, pos + 1)?;
            let target = target_parsed.0;
            let q0 = target_parsed.1;
            if q0 == toks.len() {
                return Err(ParseError::Syntax { location: err_loc(toks, q0) });
            }
            let has_in = match &toks[q0].1 {
                Tok::In => true,
                _ => false,
            };
            if !has_in {
                return Err(ParseError::Syntax { location: err_loc(toks, q0) });
            }
            let iter_parsed = parse_exprlist(toks, q0 + 1)?;
            let mut q = iter_parsed.1;
            if q < toks.len() {
                let is_do = match &toks[q].1 {
                    Tok::Do => true,
                    _ => false,
                };
                if is_do {
                    q = q + 1;
                }
            }
            let body_parsed = parse_block(toks, q)?;
            let q2 = body_parsed.1;
            if q2 == toks.len() {
                return Err(ParseError::Syntax { location: err_loc(toks, q2) });
            }
            let ended = match &toks[q2].1 {
                Tok::End => true,
                _ => false,
            };
            if !ended {
                return Err(ParseError::Syntax { location: err_loc(toks, q2) });
            }
            Ok(
                (
                    Located {
                        location,
                        node: Statement::For {
                            target,
                            iter: iter_parsed.0,
                            body: body_parsed.0,
                            orelse: None,
                        },
                    },
                    q2 + 1,
                ),
            )
        },
        Tok::Def => {
            if pos + 1 == toks.len() {
                return Err(ParseError::Syntax { location: err_loc(toks, pos + 1) });
            }
            let name = match &toks[pos + 1].1 {
                Tok::Ident { ident } => ident.clone(),
                _ => {
                    return Err(ParseError::Syntax { location: err_loc(toks, pos + 1) });
                },
            };
            let params_parsed = parse_params(toks, pos + 2)?;
            let mut q = params_parsed.1;
            if q < toks.len() {
                let is_do = match &toks[q].1 {
                    Tok::Do => true,
                    _ => false,
                };
                if is_do {
                    q = q + 1;
                }
            }
            let body_parsed = parse_block(toks, q)?;
            let q2 = body_parsed.1;
            if q2 == toks.len() {
                return Err(ParseError::Syntax { location: err_loc(toks, q2) });
            }
            let ended = match &toks[q2].1 {
                Tok::End => true,
                _ => false,
            };
            if !ended {
                return Err(ParseError::Syntax { location: err_loc(toks, q2) });
            }
            Ok(
                (
                    Located {
                        location,
                        node: Statement::FunctionDef {
                            name,
                            args: params_parsed.0,
                            body: body_parsed.0,
                        },
                    },
                    q2 + 1,
                ),
            )
        },
        Tok::Class => {
            if pos + 1 == toks.len() {
                return Err(ParseError::Syntax { location: err_loc(toks, pos + 1) });
            }
            let name = match &toks[pos + 1].1 {
                Tok::Ident { ident } => ident.clone(),
                _ => {
                    return Err(ParseError::Syntax { location: err_loc(toks, pos + 1) });
                },
            };
            let mut q = pos + 2;
            if q < toks.len() {
                let is_do = match &toks[q].1 {
                    Tok::Do => true,
                    _ => false,
                };
                if is_do {
                    q = q + 1;
                }
            }
            let body_parsed = parse_block(toks, q)?;
            let q2 = body_parsed.1;
            if q2 == toks.len() {
                return Err(ParseError::Syntax { location: err_loc(toks, q2) });
            }
            let ended = match &toks[q2].1 {
                Tok::End => true,
                _ => false,
            };
            if !ended {
                return Err(ParseError::Syntax { location: err_loc(toks, q2) });
            }
            Ok(
                (
                    Located {
                        location,
                        node: Statement::ClassDef {
                            name,
                            body: body_parsed.0,
                            keywords: Vec::new(),
                        },
                    },
                    q2 + 1,
                ),
            )
        },
        _ => {
            let first_parsed = parse_expr(toks, pos)?;
            let first = first_parsed.0;
            let q = first_parsed.1;
            if q < toks.len() {
                let augop = match &toks[q].1 {
                    Tok::Equal => None,
                    Tok::PlusEqual => Some(Operator::Add),
                    Tok::MinusEqual => Some(Operator::Sub),
                    Tok::StarEqual => Some(Operator::Mul),
                    Tok::SlashEqual => Some(Operator::Div),
                    Tok::PercentEqual => Some(Operator::Mod),
                    Tok::DoubleStarEqual => Some(Operator::Pow),
                    _ => None,
                };
                let is_assign = match &toks[q].1 {
                    Tok::Equal => true,
                    _ => false,
                };
                if is_assign {
                    let value_parsed = parse_expr(toks, q + 1)?;
                    let mut targets: Vec<Expression> = Vec::new();
                    targets.push(first);
                    return Ok(
                        (
                            Located {
                                location,
                                node: Statement::Assign { targets, value: value_parsed.0 },
                            },
                            value_parsed.1,
                        ),
                    );
                }
                if let Some(op) = augop {
                    let value_parsed = parse_expr(toks, q + 1)?;
                    return Ok(
                        (
                            Located {
                                location,
                                node: Statement::AugAssign {
                                    target: Box::new(first),
                                    op,
                                    value: Box::new(value_parsed.0),
                                },
                            },
                            value_parsed.1,
                        ),
                    );
                }
            }
            Ok((Located { location, node: Statement::Expression { expression: first } }, q))
        },
    }
}

/// Parse a block: statements separated by newlines, up to but not including
/// the `end`, `else` or `elif` that closes it.
#[verifier::loop_isolation(false)]
fn parse_block(toks: &Vec<Spanned>, pos: usize) -> (r: Result<
    (Vec<Located<Statement>>, usize),
    ParseError,
>)
    requires
        pos <= toks@.len(),
    ensures
        r matches Ok((ss, q)) ==> pos <= q <= toks@.len() && q < toks@.len(),
    decreases toks@.len() - pos, 13int,
{
    let mut statements: Vec<Located<Statement>> = Vec::new();
    let mut q = pos;
    loop
        invariant
            pos <= q <= toks@.len(),
        decreases toks@.len() - q,
    {
        let ghost q_start = q as int;
        while q < toks.len() && matches!(&toks[q].1, Tok::Newline)
            invariant
                pos <= q <= toks@.len(),
                q_start <= q as int,
            decreases toks@.len() - q,
        {
            q = q + 1;
        }
        if q == toks.len() {
            return Err(ParseError::Syntax { location: err_loc(toks, q) });
        }
        if is_block_ender(&toks[q].1) {
            return Ok((statements, q));
        }
        let parsed = parse_statement_at(toks, q)?;
        statements.push(parsed.0);
        q = parsed.1;
        if q < toks.len() {
            let nl = match &toks[q].1 {
                Tok::Newline => true,
                _ => false,
            };
            if nl {
                q = q + 1;
                continue ;
            }
            if is_block_ender(&toks[q].1) {
                continue ;
            }
            return Err(ParseError::Syntax { location: err_loc(toks, q) });
        }
    }
}

/// Parse a full token stream as one expression, allowing trailing newline
/// tokens.
#[verifier::loop_isolation(false)]
fn parse_expression_tokens(toks: &Vec<Spanned>) -> (r: Result<Expression, ParseError>)
    ensures
        toks@.len() == 1 && is_int_tok(toks@[0].1) ==> (r matches Ok(e) && int_expr_with(
            e,
            int_tok_val(toks@[0].1),
        )),
        toks@.len() == 1 && is_ident_tok(toks@[0].1) ==> (r matches Ok(e) && ident_expr_with(
            e,
            ident_tok_text(toks@[0].1),
        )),
        toks@.len() == 3 && is_int_tok(toks@[0].1) && toks@[1].1 == Tok::Plus && is_int_tok(
            toks@[2].1,
        ) ==> (r matches Ok(e) && add_expr_with(
            e,
            int_tok_val(toks@[0].1),
            int_tok_val(toks@[2].1),
        )),
{
    let ghost g = toks@.len() == 1 && (is_int_tok(toks@[0].1) || is_ident_tok(toks@[0].1));
    let ghost g3 = toks@.len() == 3 && is_int_tok(toks@[0].1) && toks@[1].1 == Tok::Plus
        && is_int_tok(toks@[2].1);
    let parsed = parse_expr(toks, 0)?;
    let (e, q0) = parsed;
    let mut q = q0;
    while q < toks.len() && matches!(&toks[q].1, Tok::Newline)
        invariant
            q <= toks@.len(),
            g ==> q as int == 1,
            g3 ==> q as int == 3,
        decreases toks@.len() - q,
    {
        q = q + 1;
    }
    if q == toks.len() {
        Ok(e)
    } else {
        Err(ParseError::Syntax { location: err_loc(toks, q) })
    }
}

/// Parse a full token stream as one statement, allowing trailing newline
/// tokens.
#[verifier::loop_isolation(false)]
fn parse_statement_tokens(toks: &Vec<Spanned>) -> (r: Result<Located<Statement>, ParseError>)
    ensures
        toks@.len() == 1 && single_tok_guard(toks@[0].1) ==> (r matches Ok(ls) && ls.location
            == toks@[0].0 && single_tok_stmt(toks@[0].1, ls.node)),
{
    let ghost g = toks@.len() == 1 && single_tok_guard(toks@[0].1);
    let parsed = parse_statement_at(toks, 0)?;
    let (ls, q0) = parsed;
    let mut q = q0;
    while q < toks.len() && matches!(&toks[q].1, Tok::Newline)
        invariant
            q <= toks@.len(),
            g ==> q as int == 1,
        decreases toks@.len() - q,
    {
        q = q + 1;
    }
    if q == toks.len() {
        Ok(ls)
    } else {
        Err(ParseError::Syntax { location: err_loc(toks, q) })
    }
}

/// Parse a full token stream as a program: statements separated by newline
/// tokens, to the end of the stream.
#[verifier::loop_isolation(false)]
fn parse_program_tokens(toks: &Vec<Spanned>) -> (r: Result<Program, ParseError>)
    ensures
        toks@.len() == 1 && single_tok_guard(toks@[0].1) ==> (r matches Ok(prog)
            && prog.statements@.len() == 1 && prog.statements@[0].location == toks@[0].0
            && single_tok_stmt(toks@[0].1, prog.statements@[0].node)),
{
    let ghost g = toks@.len() == 1 && single_tok_guard(toks@[0].1);
    let mut statements: Vec<Located<Statement>> = Vec::new();
    let mut q: usize = 0;
    loop
        invariant
            q <= toks@.len(),
            g ==> ((q == 0 && statements@.len() == 0) || (q == 1 && statements@.len() == 1
                && statements@[0].location == toks@[0].0 && single_tok_stmt(
                toks@[0].1,
                statements@[0].node,
            ))),
        decreases toks@.len() - q,
    {
        let ghost q_start = q as int;
        while q < toks.len() && matches!(&toks[q].1, Tok::Newline)
            invariant
                q <= toks@.len(),
                q_start <= q as int,
                g ==> q as int == q_start,
            decreases toks@.len() - q,
        {
            q = q + 1;
        }
        if q == toks.len() {
            return Ok(Program { statements });
        }
        let parsed = parse_statement_at(toks, q)?;
        statements.push(parsed.0);
        q = parsed.1;
        if q < toks.len() {
            let nl = match &toks[q].1 {
                Tok::Newline => true,
                _ => false,
            };
            if !nl {
                return Err(ParseError::Syntax { location: err_loc(toks, q) });
            }
            q = q + 1;
        }
    }
}

/// Parse source text with the given start rule. The produced top-level node
/// always matches the requested mode, and a well-formed decimal integer
/// literal parses, under each mode, to the node carrying exactly its value.
pub fn parse_top(source: &str, mode: StartMode) -> (r: Result<Top, ParseError>)
    requires
        source@.len() < usize::MAX,
    ensures
        mode == StartMode::Program && r is Ok ==> r matches Ok(Top::Program(prog)),
        mode == StartMode::Statement && r is Ok ==> r matches Ok(Top::Statement(ls)),
        mode == StartMode::Expression && r is Ok ==> r matches Ok(Top::Expression(e)),
        ({
            let s = source@;
            let all_digits = s.len() > 0 && (forall|i: int|
                0 <= i < s.len() ==> is_digit(#[trigger] s[i]));
            &&& (all_digits && mode == StartMode::Expression ==> (r matches Ok(
                Top::Expression(e),
            ) && int_expr_with(e, digits_seq_value(s, 10))))
            &&& (all_digits && mode == StartMode::Statement ==> (r matches Ok(
                Top::Statement(ls),
            ) && ls.location == loc_at(s, 0) && (
            ls.node matches Statement::Expression { expression } && int_expr_with(
                expression,
                digits_seq_value(s, 10),
            ))))
            &&& (all_digits && mode == StartMode::Program ==> (r matches Ok(Top::Program(prog))
                && prog.statements@.len() == 1 && prog.statements@[0].location == loc_at(s, 0)
                && (prog.statements@[0].node matches Statement::Expression { expression }
                && int_expr_with(expression, digits_seq_value(s, 10)))))
            &&& (mode == StartMode::Expression ==> (forall|k: int|
                #[trigger] int_plus_int_at(s, k) ==> (r matches Ok(Top::Expression(e))
                    && add_expr_with(
                    e,
                    digits_seq_value(s.subrange(0, k), 10),
                    digits_seq_value(s.subrange(k + 1, s.len() as int), 10),
                ))))
            &&& (first_lex_error(s) ==> (r matches Err(pe) && pe matches ParseError::Lexical {
                error,
            } && first_lex_error_matches(s, Some(error))))
            &&& (word_stmt_guard(s) && mode == StartMode::Statement ==> (r matches Ok(
                Top::Statement(ls),
            ) && ls.location == loc_at(s, 0) && word_stmt_node(s, ls.node)))
            &&& (word_stmt_guard(s) && mode == StartMode::Program ==> (r matches Ok(
                Top::Program(prog),
            ) && prog.statements@.len() == 1 && prog.statements@[0].location == loc_at(s, 0)
                && word_stmt_node(s, prog.statements@[0].node)))
            &&& (ident_shaped(s) && keyword_spec(s) is None && mode == StartMode::Expression
                ==> (r matches Ok(Top::Expression(e)) && ident_expr_with(e, s)))
        }),
{
    let tokenized = tokenize(source);
    let toks = tokenized.0;
    if let Some(e) = tokenized.1 {
        return Err(ParseError::Lexical { error: e });
    }
    match mode {
        StartMode::Program => {
            let prog = parse_program_tokens(&toks)?;
            Ok(Top::Program(prog))
        },
        StartMode::Statement => {
            let ls = parse_statement_tokens(&toks)?;
            Ok(Top::Statement(ls))
        },
        StartMode::Expression => {
            let e = parse_expression_tokens(&toks)?;
            Ok(Top::Expression(e))
        },
    }
}

/// Parse source text as a whole program.
pub fn parse_program(source: &str) -> (r: Result<Program, ParseError>)
    requires
        source@.len() < usize::MAX,
    ensures
        ({
            let s = source@;
            (s.len() > 0 && (forall|i: int| 0 <= i < s.len() ==> is_digit(#[trigger] s[i])))
                ==> (r matches Ok(prog) && prog.statements@.len() == 1
                && prog.statements@[0].location == loc_at(s, 0) && (
            prog.statements@[0].node matches Statement::Expression { expression }
                && int_expr_with(expression, digits_seq_value(s, 10))))
        }),
        first_lex_error(source@) ==> (r matches Err(pe) && pe matches ParseError::Lexical {
            error,
        } && first_lex_error_matches(source@, Some(error))),
        word_stmt_guard(source@) ==> (r matches Ok(prog) && prog.statements@.len() == 1
            && prog.statements@[0].location == loc_at(source@, 0) && word_stmt_node(
            source@,
            prog.statements@[0].node,
        )),
{
    match parse_top(source, StartMode::Program) {
        Ok(top) => match top {
            Top::Program(prog) => Ok(prog),
            _ => Err(ParseError::EntryPointMismatch),
        },
        Err(e) => Err(e),
    }
}

/// Parse source text as a single statement.
pub fn parse_statement(source: &str) -> (r: Result<Located<Statement>, ParseError>)
    requires
        source@.len() < usize::MAX,
    ensures
        ({
            let s = source@;
            (s.len() > 0 && (forall|i: int| 0 <= i < s.len() ==> is_digit(#[trigger] s[i])))
                ==> (r matches Ok(ls) && ls.location == loc_at(s, 0) && (
            ls.node matches Statement::Expression { expression } && int_expr_with(
                expression,
                digits_seq_value(s, 10),
            )))
        }),
        first_lex_error(source@) ==> (r matches Err(pe) && pe matches ParseError::Lexical {
            error,
        } && first_lex_error_matches(source@, Some(error))),
        word_stmt_guard(source@) ==> (r matches Ok(ls) && ls.location == loc_at(source@, 0)
            && word_stmt_node(source@, ls.node)),
{
    match parse_top(source, StartMode::Statement) {
        Ok(top) => match top {
            Top::Statement(ls) => Ok(ls),
            _ => Err(ParseError::EntryPointMismatch),
        },
        Err(e) => Err(e),
    }
}

/// Parse source text as a single expression.
pub fn parse_expression(source: &str) -> (r: Result<Expression, ParseError>)
    requires
        source@.len() < usize::MAX,
    ensures
        ({
            let s = source@;
            (s.len() > 0 && (forall|i: int| 0 <= i < s.len() ==> is_digit(#[trigger] s[i])))
                ==> (r matches Ok(e) && int_expr_with(e, digits_seq_value(s, 10)))
        }),
        forall|k: int| #[trigger] int_plus_int_at(source@, k) ==> (r matches Ok(e)
            && add_expr_with(
            e,
            digits_seq_value(source@.subrange(0, k), 10),
            digits_seq_value(source@.subrange(k + 1, source@.len() as int), 10),
        )),
        first_lex_error(source@) ==> (r matches Err(pe) && pe matches ParseError::Lexical {
            error,
        } && first_lex_error_matches(source@, Some(error))),
        ident_shaped(source@) && keyword_spec(source@) is None ==> (r matches Ok(e)
            && ident_expr_with(e, source@)),
{
    match parse_top(source, StartMode::Expression) {
        Ok(top) => match top {
            Top::Expression(e) => Ok(e),
            _ => Err(ParseError::EntryPointMismatch),
        },
        Err(e) => Err(e),
    }
}

} // verus!

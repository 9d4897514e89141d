//! The tokenizer: a state machine that classifies source text into spanned
//! tokens, tracking positions, bracket nesting and line starts, and stopping
//! at end of input or at the first lexical error.

use vstd::prelude::*;
use vstd::string::StrSliceExecFns;
use vstd::string::StringExecFns;

use crate::bignum::{
    big_from_digits, big_value, digit_value, digits_seq_value, is_digit, is_radix_digit,
};
use crate::location::{loc_after, loc_at, lemma_loc_after_bounds, Location};
use crate::token::Tok;

verus! {

/// A scanning failure. Each variant carries the location at which the failing
/// lexical unit began. Token production stops at the first error.
#[derive(Clone, Copy, Debug, PartialEq, Eq, Structural)]
pub enum LexicalError {
    /// End of input was reached before a string literal's closing quote.
    UnterminatedString { location: Location },
    /// A tab followed a space inside one line's leading whitespace.
    MixedIndentation { location: Location },
    /// A character that starts no lexical unit.
    UnrecognizedCharacter { location: Location },
    /// A `!` not followed by `=`.
    MalformedOperator { location: Location },
    /// A numeric literal with no valid digits for its radix, a separator
    /// underscore at a literal boundary or doubled, or an empty exponent.
    MalformedNumber { location: Location },
}

/// The keyword table as a relation: the keyword token for a reserved spelling,
/// or `None` for every other identifier.
pub open spec fn keyword_spec(s: Seq<char>) -> Option<Tok> {
    if s == "and"@ {
        Some(Tok::And)
    } else if s == "break"@ {
        Some(Tok::Break)
    } else if s == "case"@ {
        Some(Tok::Case)
    } else if s == "class"@ {
        Some(Tok::Class)
    } else if s == "continue"@ {
        Some(Tok::Continue)
    } else if s == "def"@ {
        Some(Tok::Def)
    } else if s == "do"@ {
        Some(Tok::Do)
    } else if s == "elif"@ {
        Some(Tok::Elif)
    } else if s == "else"@ {
        Some(Tok::Else)
    } else if s == "end"@ {
        Some(Tok::End)
    } else if s == "false"@ {
        Some(Tok::False)
    } else if s == "for"@ {
        Some(Tok::For)
    } else if s == "from"@ {
        Some(Tok::From)
    } else if s == "global"@ {
        Some(Tok::Global)
    } else if s == "if"@ {
        Some(Tok::If)
    } else if s == "import"@ {
        Some(Tok::Import)
    } else if s == "in"@ {
        Some(Tok::In)
    } else if s == "lambda"@ {
        Some(Tok::Lambda)
    } else if s == "module"@ {
        Some(Tok::Module)
    } else if s == "none"@ {
        Some(Tok::NoneKw)
    } else if s == "not"@ {
        Some(Tok::Not)
    } else if s == "or"@ {
        Some(Tok::Or)
    } else if s == "return"@ {
        Some(Tok::Return)
    } else if s == "self"@ {
        Some(Tok::SelfKw)
    } else if s == "super"@ {
        Some(Tok::Super)
    } else if s == "true"@ {
        Some(Tok::True)
    } else if s == "while"@ {
        Some(Tok::While)
    } else if s == "yield"@ {
        Some(Tok::Yield)
    } else {
        None
    }
}

/// Character-wise string equality, proved equivalent to equality of views.
#[verifier::loop_isolation(false)]
fn str_eq(a: &str, b: &str) -> (r: bool)
    ensures
        r == (a@ == b@),
{
    let alen = a.unicode_len();
    let blen = b.unicode_len();
    if alen != blen {
        return false;
    }
    let mut i: usize = 0;
    while i < alen
        invariant
            alen == a@.len(),
            alen == b@.len(),
            i <= alen,
            forall|j: int| 0 <= j < i ==> a@[j] == b@[j],
        decreases alen - i,
    {
        if a.get_char(i) != b.get_char(i) {
            return false;
        }
        i = i + 1;
    }
    proof {
        assert(a@ =~= b@);
    }
    true
}

/// Exact-match, case-sensitive lookup in the keyword table.
pub fn keyword_token(name: &str) -> (r: Option<Tok>)
    ensures
        r == keyword_spec(name@),
{
    if str_eq(name, "and") {
        Some(Tok::And)
    } else if str_eq(name, "break") {
        Some(Tok::Break)
    } else if str_eq(name, "case") {
        Some(Tok::Case)
    } else if str_eq(name, "class") {
        Some(Tok::Class)
    } else if str_eq(name, "continue") {
        Some(Tok::Continue)
    } else if str_eq(name, "def") {
        Some(Tok::Def)
    } else if str_eq(name, "do") {
        Some(Tok::Do)
    } else if str_eq(name, "elif") {
        Some(Tok::Elif)
    } else if str_eq(name, "else") {
        Some(Tok::Else)
    } else if str_eq(name, "end") {
        Some(Tok::End)
    } else if str_eq(name, "false") {
        Some(Tok::False)
    } else if str_eq(name, "for") {
        Some(Tok::For)
    } else if str_eq(name, "from") {
        Some(Tok::From)
    } else if str_eq(name, "global") {
        Some(Tok::Global)
    } else if str_eq(name, "if") {
        Some(Tok::If)
    } else if str_eq(name, "import") {
        Some(Tok::Import)
    } else if str_eq(name, "in") {
        Some(Tok::In)
    } else if str_eq(name, "lambda") {
        Some(Tok::Lambda)
    } else if str_eq(name, "module") {
        Some(Tok::Module)
    } else if str_eq(name, "none") {
        Some(Tok::NoneKw)
    } else if str_eq(name, "not") {
        Some(Tok::Not)
    } else if str_eq(name, "or") {
        Some(Tok::Or)
    } else if str_eq(name, "return") {
        Some(Tok::Return)
    } else if str_eq(name, "self") {
        Some(Tok::SelfKw)
    } else if str_eq(name, "super") {
        Some(Tok::Super)
    } else if str_eq(name, "true") {
        Some(Tok::True)
    } else if str_eq(name, "while") {
        Some(Tok::While)
    } else if str_eq(name, "yield") {
        Some(Tok::Yield)
    } else {
        None
    }
}

/// The keyword table materialized: every reserved spelling paired with its
/// token, each entry agreeing with `keyword_spec`.
#[verifier::rlimit(100)]
pub fn get_keywords() -> (r: Vec<(String, Tok)>)
    ensures
        r@.len() == 28,
        forall|i: int|
            0 <= i < r@.len() ==> #[trigger] keyword_spec(r@[i].0@) == Some(r@[i].1),
        r@[0].0@ == "and"@ && r@[0].1 == Tok::And,
        r@[1].0@ == "break"@ && r@[1].1 == Tok::Break,
        r@[2].0@ == "case"@ && r@[2].1 == Tok::Case,
        r@[3].0@ == "class"@ && r@[3].1 == Tok::Class,
        r@[4].0@ == "continue"@ && r@[4].1 == Tok::Continue,
        r@[5].0@ == "def"@ && r@[5].1 == Tok::Def,
        r@[6].0@ == "do"@ && r@[6].1 == Tok::Do,
        r@[7].0@ == "elif"@ && r@[7].1 == Tok::Elif,
        r@[8].0@ == "else"@ && r@[8].1 == Tok::Else,
        r@[9].0@ == "end"@ && r@[9].1 == Tok::End,
        r@[10].0@ == "false"@ && r@[10].1 == Tok::False,
        r@[11].0@ == "for"@ && r@[11].1 == Tok::For,
        r@[12].0@ == "from"@ && r@[12].1 == Tok::From,
        r@[13].0@ == "global"@ && r@[13].1 == Tok::Global,
        r@[14].0@ == "if"@ && r@[14].1 == Tok::If,
        r@[15].0@ == "import"@ && r@[15].1 == Tok::Import,
        r@[16].0@ == "in"@ && r@[16].1 == Tok::In,
        r@[17].0@ == "lambda"@ && r@[17].1 == Tok::Lambda,
        r@[18].0@ == "module"@ && r@[18].1 == Tok::Module,
        r@[19].0@ == "none"@ && r@[19].1 == Tok::NoneKw,
        r@[20].0@ == "not"@ && r@[20].1 == Tok::Not,
        r@[21].0@ == "or"@ && r@[21].1 == Tok::Or,
        r@[22].0@ == "return"@ && r@[22].1 == Tok::Return,
        r@[23].0@ == "self"@ && r@[23].1 == Tok::SelfKw,
        r@[24].0@ == "super"@ && r@[24].1 == Tok::Super,
        r@[25].0@ == "true"@ && r@[25].1 == Tok::True,
        r@[26].0@ == "while"@ && r@[26].1 == Tok::While,
        r@[27].0@ == "yield"@ && r@[27].1 == Tok::Yield,
{
    let mut v: Vec<(String, Tok)> = Vec::new();
    v.push((String::from_str("and"), Tok::And));
    v.push((String::from_str("break"), Tok::Break));
    v.push((String::from_str("case"), Tok::Case));
    v.push((String::from_str("class"), Tok::Class));
    v.push((String::from_str("continue"), Tok::Continue));
    v.push((String::from_str("def"), Tok::Def));
    v.push((String::from_str("do"), Tok::Do));
    v.push((String::from_str("elif"), Tok::Elif));
    v.push((String::from_str("else"), Tok::Else));
    v.push((String::from_str("end"), Tok::End));
    v.push((String::from_str("false"), Tok::False));
    v.push((String::from_str("for"), Tok::For));
    v.push((String::from_str("from"), Tok::From));
    v.push((String::from_str("global"), Tok::Global));
    v.push((String::from_str("if"), Tok::If));
    v.push((String::from_str("import"), Tok::Import));
    v.push((String::from_str("in"), Tok::In));
    v.push((String::from_str("lambda"), Tok::Lambda));
    v.push((String::from_str("module"), Tok::Module));
    v.push((String::from_str("none"), Tok::NoneKw));
    v.push((String::from_str("not"), Tok::Not));
    v.push((String::from_str("or"), Tok::Or));
    v.push((String::from_str("return"), Tok::Return));
    v.push((String::from_str("self"), Tok::SelfKw));
    v.push((String::from_str("super"), Tok::Super));
    v.push((String::from_str("true"), Tok::True));
    v.push((String::from_str("while"), Tok::While));
    v.push((String::from_str("yield"), Tok::Yield));
    proof {
        reveal_strlit("and");
        reveal_strlit("break");
        reveal_strlit("case");
        reveal_strlit("class");
        reveal_strlit("continue");
        reveal_strlit("def");
        reveal_strlit("do");
        reveal_strlit("elif");
        reveal_strlit("else");
        reveal_strlit("end");
        reveal_strlit("false");
        reveal_strlit("for");
        reveal_strlit("from");
        reveal_strlit("global");
        reveal_strlit("if");
        reveal_strlit("import");
        reveal_strlit("in");
        reveal_strlit("lambda");
        reveal_strlit("module");
        reveal_strlit("none");
        reveal_strlit("not");
        reveal_strlit("or");
        reveal_strlit("return");
        reveal_strlit("self");
        reveal_strlit("super");
        reveal_strlit("true");
        reveal_strlit("while");
        reveal_strlit("yield");
        // Same-length spellings must be told apart character by character
        // before each table entry can be matched against the relation.
        assert(v@.len() == 28);
        assert("class"@.index(0) != "break"@.index(0));
        assert("def"@.index(0) != "and"@.index(0));
        assert("elif"@.index(0) != "case"@.index(0));
        assert("else"@.index(0) != "case"@.index(0));
        assert("else"@.index(2) != "elif"@.index(2));
        assert("end"@.index(0) != "and"@.index(0));
        assert("end"@.index(0) != "def"@.index(0));
        assert("false"@.index(0) != "break"@.index(0));
        assert("false"@.index(0) != "class"@.index(0));
        assert("for"@.index(0) != "and"@.index(0));
        assert("for"@.index(0) != "def"@.index(0));
        assert("for"@.index(0) != "end"@.index(0));
        assert("from"@.index(0) != "case"@.index(0));
        assert("from"@.index(0) != "elif"@.index(0));
        assert("from"@.index(0) != "else"@.index(0));
        assert("if"@.index(0) != "do"@.index(0));
        assert("import"@.index(0) != "global"@.index(0));
        assert("in"@.index(0) != "do"@.index(0));
        assert("in"@.index(1) != "if"@.index(1));
        assert("lambda"@.index(0) != "global"@.index(0));
        assert("lambda"@.index(0) != "import"@.index(0));
        assert("module"@.index(0) != "global"@.index(0));
        assert("module"@.index(0) != "import"@.index(0));
        assert("module"@.index(0) != "lambda"@.index(0));
        assert("none"@.index(0) != "case"@.index(0));
        assert("none"@.index(0) != "elif"@.index(0));
        assert("none"@.index(0) != "else"@.index(0));
        assert("none"@.index(0) != "from"@.index(0));
        assert("not"@.index(0) != "and"@.index(0));
        assert("not"@.index(0) != "def"@.index(0));
        assert("not"@.index(0) != "end"@.index(0));
        assert("not"@.index(0) != "for"@.index(0));
        assert("or"@.index(0) != "do"@.index(0));
        assert("or"@.index(0) != "if"@.index(0));
        assert("or"@.index(0) != "in"@.index(0));
        assert("return"@.index(0) != "global"@.index(0));
        assert("return"@.index(0) != "import"@.index(0));
        assert("return"@.index(0) != "lambda"@.index(0));
        assert("return"@.index(0) != "module"@.index(0));
        assert("self"@.index(0) != "case"@.index(0));
        assert("self"@.index(0) != "elif"@.index(0));
        assert("self"@.index(0) != "else"@.index(0));
        assert("self"@.index(0) != "from"@.index(0));
        assert("self"@.index(0) != "none"@.index(0));
        assert("super"@.index(0) != "break"@.index(0));
        assert("super"@.index(0) != "class"@.index(0));
        assert("super"@.index(0) != "false"@.index(0));
        assert("true"@.index(0) != "case"@.index(0));
        assert("true"@.index(0) != "elif"@.index(0));
        assert("true"@.index(0) != "else"@.index(0));
        assert("true"@.index(0) != "from"@.index(0));
        assert("true"@.index(0) != "none"@.index(0));
        assert("true"@.index(0) != "self"@.index(0));
        assert("while"@.index(0) != "break"@.index(0));
        assert("while"@.index(0) != "class"@.index(0));
        assert("while"@.index(0) != "false"@.index(0));
        assert("while"@.index(0) != "super"@.index(0));
        assert("yield"@.index(0) != "break"@.index(0));
        assert("yield"@.index(0) != "class"@.index(0));
        assert("yield"@.index(0) != "false"@.index(0));
        assert("yield"@.index(0) != "super"@.index(0));
        assert("yield"@.index(0) != "while"@.index(0));
        assert(v@[0].0@ == "and"@ && v@[0].1 == Tok::And);
        assert(keyword_spec(v@[0].0@) == Some(v@[0].1));
        assert(v@[1].0@ == "break"@ && v@[1].1 == Tok::Break);
        assert(keyword_spec(v@[1].0@) == Some(v@[1].1));
        assert(v@[2].0@ == "case"@ && v@[2].1 == Tok::Case);
        assert(keyword_spec(v@[2].0@) == Some(v@[2].1));
        assert(v@[3].0@ == "class"@ && v@[3].1 == Tok::Class);
        assert(keyword_spec(v@[3].0@) == Some(v@[3].1));
        assert(v@[4].0@ == "continue"@ && v@[4].1 == Tok::Continue);
        assert(keyword_spec(v@[4].0@) == Some(v@[4].1));
        assert(v@[5].0@ == "def"@ && v@[5].1 == Tok::Def);
        assert(keyword_spec(v@[5].0@) == Some(v@[5].1));
        assert(v@[6].0@ == "do"@ && v@[6].1 == Tok::Do);
        assert(keyword_spec(v@[6].0@) == Some(v@[6].1));
        assert(v@[7].0@ == "elif"@ && v@[7].1 == Tok::Elif);
        assert(keyword_spec(v@[7].0@) == Some(v@[7].1));
        assert(v@[8].0@ == "else"@ && v@[8].1 == Tok::Else);
        assert(keyword_spec(v@[8].0@) == Some(v@[8].1));
        assert(v@[9].0@ == "end"@ && v@[9].1 == Tok::End);
        assert(keyword_spec(v@[9].0@) == Some(v@[9].1));
        assert(v@[10].0@ == "false"@ && v@[10].1 == Tok::False);
        assert(keyword_spec(v@[10].0@) == Some(v@[10].1));
        assert(v@[11].0@ == "for"@ && v@[11].1 == Tok::For);
        assert(keyword_spec(v@[11].0@) == Some(v@[11].1));
        assert(v@[12].0@ == "from"@ && v@[12].1 == Tok::From);
        assert(keyword_spec(v@[12].0@) == Some(v@[12].1));
        assert(v@[13].0@ == "global"@ && v@[13].1 == Tok::Global);
        assert(keyword_spec(v@[13].0@) == Some(v@[13].1));
        assert(v@[14].0@ == "if"@ && v@[14].1 == Tok::If);
        assert(keyword_spec(v@[14].0@) == Some(v@[14].1));
        assert(v@[15].0@ == "import"@ && v@[15].1 == Tok::Import);
        assert(keyword_spec(v@[15].0@) == Some(v@[15].1));
        assert(v@[16].0@ == "in"@ && v@[16].1 == Tok::In);
        assert(keyword_spec(v@[16].0@) == Some(v@[16].1));
        assert(v@[17].0@ == "lambda"@ && v@[17].1 == Tok::Lambda);
        assert(keyword_spec(v@[17].0@) == Some(v@[17].1));
        assert(v@[18].0@ == "module"@ && v@[18].1 == Tok::Module);
        assert(keyword_spec(v@[18].0@) == Some(v@[18].1));
        assert(v@[19].0@ == "none"@ && v@[19].1 == Tok::NoneKw);
        assert(keyword_spec(v@[19].0@) == Some(v@[19].1));
        assert(v@[20].0@ == "not"@ && v@[20].1 == Tok::Not);
        assert(keyword_spec(v@[20].0@) == Some(v@[20].1));
        assert(v@[21].0@ == "or"@ && v@[21].1 == Tok::Or);
        assert(keyword_spec(v@[21].0@) == Some(v@[21].1));
        assert(v@[22].0@ == "return"@ && v@[22].1 == Tok::Return);
        assert(keyword_spec(v@[22].0@) == Some(v@[22].1));
        assert(v@[23].0@ == "self"@ && v@[23].1 == Tok::SelfKw);
        assert(keyword_spec(v@[23].0@) == Some(v@[23].1));
        assert(v@[24].0@ == "super"@ && v@[24].1 == Tok::Super);
        assert(keyword_spec(v@[24].0@) == Some(v@[24].1));
        assert(v@[25].0@ == "true"@ && v@[25].1 == Tok::True);
        assert(keyword_spec(v@[25].0@) == Some(v@[25].1));
        assert(v@[26].0@ == "while"@ && v@[26].1 == Tok::While);
        assert(keyword_spec(v@[26].0@) == Some(v@[26].1));
        assert(v@[27].0@ == "yield"@ && v@[27].1 == Tok::Yield);
        assert(keyword_spec(v@[27].0@) == Some(v@[27].1));
    }
    v
}

/// Whether `c` can start an identifier: an ASCII letter or an underscore.
pub open spec fn is_ident_start(c: char) -> bool {
    c == '_' || ('a' <= c && c <= 'z') || ('A' <= c && c <= 'Z')
}

/// Whether `c` can continue an identifier: a start character or a digit.
pub open spec fn is_ident_char(c: char) -> bool {
    is_ident_start(c) || is_digit(c)
}

/// End of the identifier run beginning at `p`: the first position at or after
/// `p` that holds no identifier character, or the end of input.
pub open spec fn ident_end(s: Seq<char>, p: int) -> int
    decreases s.len() - p,
    when 0 <= p <= s.len()
{
    if p == s.len() {
        p
    } else if is_ident_char(s[p]) {
        ident_end(s, p + 1)
    } else {
        p
    }
}

pub proof fn lemma_ident_end(s: Seq<char>, p: int)
    requires
        0 <= p <= s.len(),
    ensures
        p <= ident_end(s, p) <= s.len(),
        forall|i: int| p <= i < ident_end(s, p) ==> is_ident_char(#[trigger] s[i]),
        ident_end(s, p) < s.len() ==> !is_ident_char(s[ident_end(s, p)]),
    decreases s.len() - p,
{
    if p < s.len() && is_ident_char(s[p]) {
        lemma_ident_end(s, p + 1);
    }
}

/// End of the decimal digit run beginning at `p`.
pub open spec fn digit_run_end(s: Seq<char>, p: int) -> int
    decreases s.len() - p,
    when 0 <= p <= s.len()
{
    if p == s.len() {
        p
    } else if is_digit(s[p]) {
        digit_run_end(s, p + 1)
    } else {
        p
    }
}

pub proof fn lemma_digit_run_end(s: Seq<char>, p: int)
    requires
        0 <= p <= s.len(),
    ensures
        p <= digit_run_end(s, p) <= s.len(),
        forall|i: int| p <= i < digit_run_end(s, p) ==> is_digit(#[trigger] s[i]),
        digit_run_end(s, p) < s.len() ==> !is_digit(s[digit_run_end(s, p)]),
    decreases s.len() - p,
{
    if p < s.len() && is_digit(s[p]) {
        lemma_digit_run_end(s, p + 1);
    }
}

/// End of the run of radix digits and separator underscores beginning at `p`.
pub open spec fn radix_run_end(s: Seq<char>, p: int, radix: int) -> int
    decreases s.len() - p,
    when 0 <= p <= s.len()
{
    if p == s.len() {
        p
    } else if is_radix_digit(s[p], radix) || s[p] == '_' {
        radix_run_end(s, p + 1, radix)
    } else {
        p
    }
}

pub proof fn lemma_radix_run_end(s: Seq<char>, p: int, radix: int)
    requires
        0 <= p <= s.len(),
    ensures
        p <= radix_run_end(s, p, radix) <= s.len(),
        forall|i: int|
            p <= i < radix_run_end(s, p, radix) ==> is_radix_digit(#[trigger] s[i], radix)
                || s[i] == '_',
        radix_run_end(s, p, radix) < s.len() ==> !(is_radix_digit(
            s[radix_run_end(s, p, radix)],
            radix,
        ) || s[radix_run_end(s, p, radix)] == '_'),
    decreases s.len() - p,
{
    if p < s.len() && (is_radix_digit(s[p], radix) || s[p] == '_') {
        lemma_radix_run_end(s, p + 1, radix);
    }
}

/// The first position at or after `p` holding a double quote, or the end of
/// input if none follows.
pub open spec fn quote_end(s: Seq<char>, p: int) -> int
    decreases s.len() - p,
    when 0 <= p <= s.len()
{
    if p == s.len() {
        p
    } else if s[p] != '"' {
        quote_end(s, p + 1)
    } else {
        p
    }
}

pub proof fn lemma_quote_end(s: Seq<char>, p: int)
    requires
        0 <= p <= s.len(),
    ensures
        p <= quote_end(s, p) <= s.len(),
        forall|i: int| p <= i < quote_end(s, p) ==> #[trigger] s[i] != '"',
        quote_end(s, p) < s.len() ==> s[quote_end(s, p)] == '"',
    decreases s.len() - p,
{
    if p < s.len() && s[p] != '"' {
        lemma_quote_end(s, p + 1);
    }
}

/// The first position at or after `p` holding a newline, or the end of input:
/// where a comment beginning at `p` stops.
pub open spec fn line_end(s: Seq<char>, p: int) -> int
    decreases s.len() - p,
    when 0 <= p <= s.len()
{
    if p == s.len() {
        p
    } else if s[p] != '\n' {
        line_end(s, p + 1)
    } else {
        p
    }
}

pub proof fn lemma_line_end(s: Seq<char>, p: int)
    requires
        0 <= p <= s.len(),
    ensures
        p <= line_end(s, p) <= s.len(),
        forall|i: int| p <= i < line_end(s, p) ==> #[trigger] s[i] != '\n',
        line_end(s, p) < s.len() ==> s[line_end(s, p)] == '\n',
    decreases s.len() - p,
{
    if p < s.len() && s[p] != '\n' {
        lemma_line_end(s, p + 1);
    }
}

/// Whether the separator underscores in a radix digit run stand strictly
/// between digits: the run is nonempty, starts and ends with a digit, and no
/// two underscores are adjacent.
pub open spec fn good_separators(run: Seq<char>) -> bool {
    &&& run.len() > 0
    &&& run[0] != '_'
    &&& run[run.len() - 1] != '_'
    &&& forall|i: int| 0 <= i < run.len() - 1 ==> (#[trigger] run[i]) != '_' || run[i + 1] != '_'
}

/// The digit run with its separator underscores removed.
pub open spec fn underscores_removed(run: Seq<char>) -> Seq<char>
    decreases run.len(),
{
    if run.len() == 0 {
        Seq::empty()
    } else if run.last() == '_' {
        underscores_removed(run.drop_last())
    } else {
        underscores_removed(run.drop_last()).push(run.last())
    }
}

pub proof fn lemma_underscores_removed_digits(run: Seq<char>, radix: int)
    requires
        forall|i: int|
            0 <= i < run.len() ==> is_radix_digit(#[trigger] run[i], radix) || run[i] == '_',
    ensures
        forall|i: int|
            0 <= i < underscores_removed(run).len() ==> is_radix_digit(
                #[trigger] underscores_removed(run)[i],
                radix,
            ),
        underscores_removed(run).len() <= run.len(),
        run.len() > 0 && run.last() != '_' ==> underscores_removed(run).len() > 0,
    decreases run.len(),
{
    if run.len() > 0 {
        assert(forall|i: int|
            0 <= i < run.drop_last().len() ==> is_radix_digit(
                #[trigger] run.drop_last()[i],
                radix,
            ) || run.drop_last()[i] == '_');
        lemma_underscores_removed_digits(run.drop_last(), radix);
    }
}

/// The radix fixed by a literal's prefix at `p`, or 0 for a plain literal.
pub open spec fn num_prefix_radix(s: Seq<char>, p: int) -> int {
    if p + 1 < s.len() && s[p] == '0' && (s[p + 1] == 'x' || s[p + 1] == 'X') {
        16
    } else if p + 1 < s.len() && s[p] == '0' && (s[p + 1] == 'o' || s[p + 1] == 'O') {
        8
    } else if p + 1 < s.len() && s[p] == '0' && (s[p + 1] == 'b' || s[p + 1] == 'B') {
        2
    } else {
        0
    }
}

/// Whether the plain numeric literal at `p` continues past its integer digits
/// as a float (a point or an exponent marker follows them).
pub open spec fn number_is_float(s: Seq<char>, p: int) -> bool {
    let q1 = digit_run_end(s, p);
    q1 < s.len() && (s[q1] == '.' || s[q1] == 'e' || s[q1] == 'E')
}

/// End of the integer-and-fraction part of the literal at `p`.
pub open spec fn frac_end(s: Seq<char>, p: int) -> int {
    let q1 = digit_run_end(s, p);
    if q1 < s.len() && s[q1] == '.' {
        digit_run_end(s, q1 + 1)
    } else {
        q1
    }
}

/// Whether an exponent marker follows the integer-and-fraction part.
pub open spec fn has_exponent(s: Seq<char>, p: int) -> bool {
    let q2 = frac_end(s, p);
    q2 < s.len() && (s[q2] == 'e' || s[q2] == 'E')
}

/// Start of the exponent's digits: past the marker and an optional sign.
pub open spec fn exp_digits_start(s: Seq<char>, p: int) -> int {
    let q2 = frac_end(s, p);
    if has_exponent(s, p) {
        if q2 + 1 < s.len() && (s[q2 + 1] == '+' || s[q2 + 1] == '-') {
            q2 + 2
        } else {
            q2 + 1
        }
    } else {
        q2
    }
}

/// End of the whole numeric literal at `p`.
pub open spec fn number_end(s: Seq<char>, p: int) -> int {
    digit_run_end(s, exp_digits_start(s, p))
}

/// Whether the exponent, if marked, has at least one digit.
pub open spec fn exponent_ok(s: Seq<char>, p: int) -> bool {
    !has_exponent(s, p) || number_end(s, p) > exp_digits_start(s, p)
}

/// End of the run of spaces and tabs beginning at `p`: where a line's leading
/// whitespace stops.
pub open spec fn ws_end(s: Seq<char>, p: int) -> int
    decreases s.len() - p,
    when 0 <= p <= s.len()
{
    if p == s.len() {
        p
    } else if s[p] == ' ' || s[p] == '\t' {
        ws_end(s, p + 1)
    } else {
        p
    }
}

pub proof fn lemma_ws_end(s: Seq<char>, p: int)
    requires
        0 <= p <= s.len(),
    ensures
        p <= ws_end(s, p) <= s.len(),
        forall|i: int| p <= i < ws_end(s, p) ==> (#[trigger] s[i]) == ' ' || s[i] == '\t',
        ws_end(s, p) < s.len() ==> s[ws_end(s, p)] != ' ' && s[ws_end(s, p)] != '\t',
    decreases s.len() - p,
{
    if p < s.len() && (s[p] == ' ' || s[p] == '\t') {
        lemma_ws_end(s, p + 1);
    }
}

/// Whether the leading whitespace run at `p` mixes a tab in after a space:
/// the condition that makes a line's indentation illegal.
pub open spec fn mixed_indent(s: Seq<char>, p: int) -> bool {
    exists|i: int, j: int|
        #![trigger s[i], s[j]]
        p <= i < j < ws_end(s, p) && s[i] == ' ' && s[j] == '\t'
}

/// Where the scan settles before classifying the next lexical unit, starting
/// at `p` with the given line-start flag, inside brackets when `nested`.
/// Spaces mid-line, comments, suppressed newlines, blank and comment-only
/// line tails, and each line's leading whitespace are consumed; the result is
/// the position of the next unit's first character (the input's length when
/// none is left), or `None` when a traversed line's leading whitespace mixes
/// a tab in after a space.
pub open spec fn scan_next(s: Seq<char>, p: int, begin: bool, nested: bool) -> Option<int>
    decreases s.len() - p,
    when 0 <= p <= s.len()
    via scan_next_decreases
{
    if begin {
        if mixed_indent(s, p) {
            None
        } else {
            let w = ws_end(s, p);
            if w < s.len() && s[w] == '/' && w + 1 < s.len() && s[w + 1] == '/' {
                scan_next(s, line_end(s, w), true, nested)
            } else if w < s.len() && s[w] == '\n' {
                scan_next(s, w + 1, true, nested)
            } else {
                Some(w)
            }
        }
    } else {
        if p < s.len() && s[p] == ' ' {
            scan_next(s, p + 1, false, nested)
        } else if p < s.len() && s[p] == '/' && p + 1 < s.len() && s[p + 1] == '/' {
            scan_next(s, line_end(s, p), false, nested)
        } else if p < s.len() && s[p] == '\n' && nested {
            scan_next(s, p + 1, true, nested)
        } else {
            Some(p)
        }
    }
}

#[via_fn]
proof fn scan_next_decreases(s: Seq<char>, p: int, begin: bool, nested: bool) {
    lemma_ws_end(s, p);
    let w = ws_end(s, p);
    if w < s.len() {
        lemma_line_end(s, w + 1);
    }
    if p < s.len() {
        lemma_line_end(s, p + 1);
    }
}

/// The operator characters that pair with a following `=` into an
/// augmented-assignment token.
pub open spec fn is_op_char(c: char) -> bool {
    c == '=' || c == '+' || c == '-' || c == '*' || c == '/' || c == '%' || c == '<' || c == '>'
}

/// The token for a lone operator character.
pub open spec fn plain_op_token(c: char) -> Tok {
    if c == '=' {
        Tok::Equal
    } else if c == '+' {
        Tok::Plus
    } else if c == '-' {
        Tok::Minus
    } else if c == '*' {
        Tok::Star
    } else if c == '/' {
        Tok::Slash
    } else if c == '%' {
        Tok::Percent
    } else if c == '<' {
        Tok::Less
    } else {
        Tok::Greater
    }
}

/// The token for an operator character followed by `=`.
pub open spec fn aug_op_token(c: char) -> Tok {
    if c == '=' {
        Tok::DoubleEqual
    } else if c == '+' {
        Tok::PlusEqual
    } else if c == '-' {
        Tok::MinusEqual
    } else if c == '*' {
        Tok::StarEqual
    } else if c == '/' {
        Tok::SlashEqual
    } else if c == '%' {
        Tok::PercentEqual
    } else if c == '<' {
        Tok::LessEqual
    } else {
        Tok::GreaterEqual
    }
}

/// Every character that can begin or stand inside a lexical unit; anything
/// else is an unrecognized character.
pub open spec fn recognized_char(c: char) -> bool {
    is_ident_start(c) || is_digit(c) || is_op_char(c) || c == '"' || c == '!' || c == '(' || c
        == ')' || c == '{' || c == '}' || c == '[' || c == ']' || c == ',' || c == '.' || c
        == '\n' || c == ' ' || c == '\t'
}

/// The executable counterpart of `plain_op_token`.
fn plain_op_of(c: char) -> (r: Tok)
    requires
        is_op_char(c),
    ensures
        r == plain_op_token(c),
{
    if c == '=' {
        Tok::Equal
    } else if c == '+' {
        Tok::Plus
    } else if c == '-' {
        Tok::Minus
    } else if c == '*' {
        Tok::Star
    } else if c == '/' {
        Tok::Slash
    } else if c == '%' {
        Tok::Percent
    } else if c == '<' {
        Tok::Less
    } else {
        Tok::Greater
    }
}

/// The executable counterpart of `aug_op_token`.
fn aug_op_of(c: char) -> (r: Tok)
    requires
        is_op_char(c),
    ensures
        r == aug_op_token(c),
{
    if c == '=' {
        Tok::DoubleEqual
    } else if c == '+' {
        Tok::PlusEqual
    } else if c == '-' {
        Tok::MinusEqual
    } else if c == '*' {
        Tok::StarEqual
    } else if c == '/' {
        Tok::SlashEqual
    } else if c == '%' {
        Tok::PercentEqual
    } else if c == '<' {
        Tok::LessEqual
    } else {
        Tok::GreaterEqual
    }
}

/// Relies on std's `FromIterator` for `String`: collecting characters yields
/// the string of exactly those characters.
#[verifier::external_body]
fn chars_to_string(v: &Vec<char>) -> (r: String)
    ensures
        r@ == v@,
{
    v.iter().collect()
}

/// The tokenizer's state: the source characters, the scan position, whether
/// the scan stands at the start of a physical line, the count of unmatched
/// open brackets, the current location, and whether an error has ended token
/// production.
pub struct Lexer {
    pub input: Vec<char>,
    pub pos: usize,
    pub at_begin_of_line: bool,
    pub nesting: usize,
    pub location: Location,
    pub errored: bool,
}

/// One successful token: its start location, the token, its end location.
pub type Spanned = (Location, Tok, Location);

impl Lexer {
    /// The state invariant: the position stays inside the input, and the
    /// tracked location is exactly the one reached by consuming `pos`
    /// characters.
    pub open spec fn wf(self) -> bool {
        &&& self.pos <= self.input@.len()
        &&& self.input@.len() < usize::MAX
        &&& self.location.row == loc_after(self.input@, self.pos as int).0
        &&& self.location.column == loc_after(self.input@, self.pos as int).1
        &&& self.nesting <= self.pos
    }

    pub fn new(input: Vec<char>) -> (r: Self)
        requires
            input@.len() < usize::MAX,
        ensures
            r.wf(),
            r.input == input,
            r.pos == 0,
            r.at_begin_of_line,
            r.nesting == 0,
            !r.errored,
    {
        Lexer {
            input,
            pos: 0,
            at_begin_of_line: true,
            nesting: 0,
            location: Location::new(1, 1),
            errored: false,
        }
    }

    /// Consume one character, advancing the location: one column per
    /// character, next row and column 1 for a newline.
    fn next_char(&mut self) -> (r: Option<char>)
        requires
            old(self).wf(),
        ensures
            final(self).wf(),
            final(self).input == old(self).input,
            final(self).nesting == old(self).nesting,
            final(self).at_begin_of_line == old(self).at_begin_of_line,
            final(self).errored == old(self).errored,
            old(self).pos < old(self).input@.len() ==> r == Some(
                old(self).input@[old(self).pos as int],
            ) && final(self).pos == old(self).pos + 1,
            old(self).pos == old(self).input@.len() ==> r is None && final(self).pos == old(
                self,
            ).pos,
    {
        if self.pos < self.input.len() {
            let c = self.input[self.pos];
            proof {
                lemma_loc_after_bounds(self.input@, self.pos as int);
            }
            self.pos = self.pos + 1;
            if c == '\n' {
                self.location = Location::new(self.location.row + 1, 1);
            } else {
                self.location = Location::new(self.location.row, self.location.column + 1);
            }
            Some(c)
        } else {
            None
        }
    }

    /// The current location, which under `wf` is the one after `pos`
    /// characters.
    fn get_loc(&self) -> (r: Location)
        requires
            self.wf(),
        ensures
            r == self.location,
            r == loc_at(self.input@, self.pos as int),
    {
        self.location
    }

    /// Whether the current character can continue an identifier.
    fn is_char(&self) -> (r: bool)
        requires
            self.wf(),
        ensures
            r == (self.pos < self.input@.len() && is_ident_char(
                self.input@[self.pos as int],
            )),
    {
        if self.pos < self.input.len() {
            let c = self.input[self.pos];
            c == '_' || ('a' <= c && c <= 'z') || ('A' <= c && c <= 'Z') || ('0' <= c && c
                <= '9')
        } else {
            false
        }
    }

    /// Whether the current character is a digit of the given radix.
    fn is_number(&self, radix: u32) -> (r: bool)
        requires
            self.wf(),
            radix == 2 || radix == 8 || radix == 10 || radix == 16,
        ensures
            r == (self.pos < self.input@.len() && is_radix_digit(
                self.input@[self.pos as int],
                radix as int,
            )),
    {
        if self.pos < self.input.len() {
            let c = self.input[self.pos];
            if radix == 2 {
                c == '0' || c == '1'
            } else if radix == 8 {
                '0' <= c && c <= '7'
            } else if radix == 10 {
                '0' <= c && c <= '9'
            } else {
                ('0' <= c && c <= '9') || ('a' <= c && c <= 'f') || ('A' <= c && c <= 'F')
            }
        } else {
            false
        }
    }

    /// Scan an identifier or keyword: the maximal run of identifier
    /// characters, resolved through the keyword table.
    #[verifier::loop_isolation(false)]
    fn lex_identifier(&mut self) -> (r: Result<Spanned, LexicalError>)
        requires
            old(self).wf(),
            old(self).pos < old(self).input@.len(),
            is_ident_start(old(self).input@[old(self).pos as int]),
        ensures
            final(self).wf(),
            final(self).input == old(self).input,
            final(self).nesting == old(self).nesting,
            final(self).at_begin_of_line == old(self).at_begin_of_line,
            final(self).errored == old(self).errored,
            final(self).pos == ident_end(old(self).input@, old(self).pos as int),
            old(self).pos < final(self).pos,
            ({
                let s = old(self).input@;
                let p = old(self).pos as int;
                let q = ident_end(s, p);
                let run = s.subrange(p, q);
                r matches Ok((st, tok, en)) && st == loc_at(s, p) && en == loc_at(s, q)
                    && (match keyword_spec(run) {
                    Some(k) => tok == k,
                    None => tok matches Tok::Ident { ident } && ident@ == run,
                })
            }),
    {
        let ghost s = self.input@;
        let ghost p = self.pos as int;
        proof {
            lemma_ident_end(s, p);
            lemma_ident_end(s, p + 1);
            assert(Seq::<char>::empty() =~= s.subrange(p, p));
        }
        let start_loc = self.get_loc();
        let mut buf: Vec<char> = Vec::new();
        while self.is_char()
            invariant
                self.wf(),
                self.input == old(self).input,
                self.input@ == s,
                p <= self.pos as int <= s.len(),
                self.nesting == old(self).nesting,
                self.at_begin_of_line == old(self).at_begin_of_line,
                self.errored == old(self).errored,
                self.location == old(self).location || buf@.len() > 0,
                buf@ == s.subrange(p, self.pos as int),
                ident_end(s, p) == ident_end(s, self.pos as int),
            decreases s.len() - self.pos,
        {
            let c = self.next_char().unwrap();
            buf.push(c);
            proof {
                assert(buf@ =~= s.subrange(p, self.pos as int));
            }
        }
        let end_loc = self.get_loc();
        let name = chars_to_string(&buf);
        match keyword_token(name.as_str()) {
            Some(k) => Ok((start_loc, k, end_loc)),
            None => Ok((start_loc, Tok::Ident { ident: name }, end_loc)),
        }
    }

    /// Skip a comment: everything up to, but not including, the next newline
    /// or the end of input.
    #[verifier::loop_isolation(false)]
    fn lex_comment(&mut self)
        requires
            old(self).wf(),
        ensures
            final(self).wf(),
            final(self).input == old(self).input,
            final(self).nesting == old(self).nesting,
            final(self).at_begin_of_line == old(self).at_begin_of_line,
            final(self).errored == old(self).errored,
            final(self).pos == line_end(old(self).input@, old(self).pos as int),
            old(self).pos <= final(self).pos,
    {
        let ghost s = self.input@;
        let ghost p = self.pos as int;
        proof {
            lemma_line_end(s, p);
        }
        while self.pos < self.input.len() && self.input[self.pos] != '\n'
            invariant
                self.wf(),
                self.input == old(self).input,
                self.input@ == s,
                p <= self.pos as int <= s.len(),
                self.nesting == old(self).nesting,
                self.at_begin_of_line == old(self).at_begin_of_line,
                self.errored == old(self).errored,
                line_end(s, p) == line_end(s, self.pos as int),
            decreases s.len() - self.pos,
        {
            self.next_char();
        }
    }

    /// Scan the digits of a radix-prefixed literal, the prefix already
    /// consumed: the maximal run of radix digits and underscores, which must
    /// keep its underscores strictly between digits.
    #[verifier::loop_isolation(false)]
    fn lex_number_with_radix(&mut self, start_loc: Location, radix: u32) -> (r: Result<
        Spanned,
        LexicalError,
    >)
        requires
            old(self).wf(),
            radix == 2 || radix == 8 || radix == 16,
        ensures
            final(self).wf(),
            final(self).input == old(self).input,
            final(self).nesting == old(self).nesting,
            final(self).at_begin_of_line == old(self).at_begin_of_line,
            final(self).errored == old(self).errored,
            final(self).pos == radix_run_end(old(self).input@, old(self).pos as int, radix as int),
            old(self).pos <= final(self).pos,
            ({
                let s = old(self).input@;
                let p = old(self).pos as int;
                let q = radix_run_end(s, p, radix as int);
                let run = s.subrange(p, q);
                if good_separators(run) {
                    r matches Ok((st, tok, en)) && st == start_loc && en == loc_at(s, q)
                        && (tok matches Tok::Int { value } && big_value(value)
                        == digits_seq_value(underscores_removed(run), radix as int))
                } else {
                    r == Err::<Spanned, LexicalError>(
                        LexicalError::MalformedNumber { location: start_loc },
                    )
                }
            }),
    {
        let ghost s = self.input@;
        let ghost p = self.pos as int;
        proof {
            lemma_radix_run_end(s, p, radix as int);
            assert(Seq::<char>::empty() =~= s.subrange(p, p));
        }
        let mut run: Vec<char> = Vec::new();
        while self.is_number(radix) || (self.pos < self.input.len() && self.input[self.pos]
            == '_')
            invariant
                self.wf(),
                self.input == old(self).input,
                p <= self.pos as int <= s.len(),
                self.nesting == old(self).nesting,
                self.at_begin_of_line == old(self).at_begin_of_line,
                self.errored == old(self).errored,
                run@ == s.subrange(p, self.pos as int),
                radix_run_end(s, p, radix as int) == radix_run_end(
                    s,
                    self.pos as int,
                    radix as int,
                ),
            decreases s.len() - self.pos,
        {
            let c = self.next_char().unwrap();
            run.push(c);
            proof {
                assert(run@ =~= s.subrange(p, self.pos as int));
            }
        }
        let ghost q = radix_run_end(s, p, radix as int);
        let ghost runview = s.subrange(p, q);
        proof {
            assert(run@ == runview);
        }
        let n_run = run.len();
        if n_run == 0 {
            return Err(LexicalError::MalformedNumber { location: start_loc });
        }
        if run[0] == '_' || run[n_run - 1] == '_' {
            return Err(LexicalError::MalformedNumber { location: start_loc });
        }
        let mut i: usize = 0;
        while i + 1 < n_run
            invariant
                i < n_run == run@.len(),
                forall|j: int| 0 <= j < i ==> (#[trigger] run@[j]) != '_' || run@[j + 1] != '_',
            decreases n_run - i,
        {
            if run[i] == '_' && run[i + 1] == '_' {
                return Err(LexicalError::MalformedNumber { location: start_loc });
            }
            i = i + 1;
        }
        proof {
            assert(good_separators(runview));
            assert(forall|j: int|
                0 <= j < runview.len() ==> is_radix_digit(#[trigger] runview[j], radix as int)
                    || runview[j] == '_');
            lemma_underscores_removed_digits(runview, radix as int);
        }
        let mut digits: Vec<char> = Vec::new();
        let mut k: usize = 0;
        proof {
            assert(runview.subrange(0, 0) =~= Seq::<char>::empty());
        }
        while k < n_run
            invariant
                k <= n_run == run@.len(),
                run@ == runview,
                digits@ == underscores_removed(runview.subrange(0, k as int)),
            decreases n_run - k,
        {
            let c = run[k];
            k = k + 1;
            proof {
                assert(runview.subrange(0, k as int).drop_last() =~= runview.subrange(
                    0,
                    k - 1,
                ));
                assert(runview.subrange(0, k as int).last() == runview[k - 1]);
            }
            if c != '_' {
                digits.push(c);
            }
        }
        proof {
            assert(runview.subrange(0, n_run as int) =~= runview);
        }
        let value = big_from_digits(&digits, radix);
        Ok((start_loc, Tok::Int { value }, self.get_loc()))
    }

    /// Scan a plain numeric literal: decimal digits, then, if a point or an
    /// exponent marker follows, the rest of a float literal, whose token
    /// carries the scanned text; otherwise an arbitrary-precision integer.
    #[verifier::loop_isolation(false)]
    fn lex_normal_number(&mut self) -> (r: Result<Spanned, LexicalError>)
        requires
            old(self).wf(),
            old(self).pos < old(self).input@.len(),
            is_digit(old(self).input@[old(self).pos as int]),
        ensures
            final(self).wf(),
            final(self).input == old(self).input,
            final(self).nesting == old(self).nesting,
            final(self).at_begin_of_line == old(self).at_begin_of_line,
            final(self).errored == old(self).errored,
            old(self).pos < final(self).pos,
            ({
                let s = old(self).input@;
                let p = old(self).pos as int;
                if !number_is_float(s, p) {
                    let q1 = digit_run_end(s, p);
                    final(self).pos == q1 && (r matches Ok((st, tok, en)) && st == loc_at(
                        s,
                        p,
                    ) && en == loc_at(s, q1) && (tok matches Tok::Int { value } && big_value(value)
                        == digits_seq_value(s.subrange(p, q1), 10)))
                } else if exponent_ok(s, p) {
                    let q4 = number_end(s, p);
                    final(self).pos == q4 && (r matches Ok((st, tok, en)) && st == loc_at(
                        s,
                        p,
                    ) && en == loc_at(s, q4) && (tok matches Tok::Float { value } && value@
                        == s.subrange(p, q4)))
                } else {
                    r == Err::<Spanned, LexicalError>(
                        LexicalError::MalformedNumber { location: loc_at(s, p) },
                    )
                }
            }),
    {
        let ghost s = self.input@;
        let ghost p = self.pos as int;
        proof {
            lemma_digit_run_end(s, p);
            lemma_digit_run_end(s, p + 1);
            assert(Seq::<char>::empty() =~= s.subrange(p, p));
        }
        let start_loc = self.get_loc();
        let mut text: Vec<char> = Vec::new();
        while self.is_number(10)
            invariant
                self.wf(),
                self.input == old(self).input,
                p <= self.pos as int <= s.len(),
                self.nesting == old(self).nesting,
                self.at_begin_of_line == old(self).at_begin_of_line,
                self.errored == old(self).errored,
                text@ == s.subrange(p, self.pos as int),
                digit_run_end(s, p) == digit_run_end(s, self.pos as int),
            decreases s.len() - self.pos,
        {
            let c = self.next_char().unwrap();
            text.push(c);
            proof {
                assert(text@ =~= s.subrange(p, self.pos as int));
            }
        }
        let ghost q1 = digit_run_end(s, p);
        let is_float = self.pos < self.input.len() && (self.input[self.pos] == '.'
            || self.input[self.pos] == 'e' || self.input[self.pos] == 'E');
        if !is_float {
            proof {
                assert(forall|j: int|
                    0 <= j < text@.len() ==> is_digit(#[trigger] text@[j]) && is_radix_digit(
                        text@[j],
                        10,
                    ));
            }
            let value = big_from_digits(&text, 10);
            return Ok((start_loc, Tok::Int { value }, self.get_loc()));
        }
        if self.input[self.pos] == '.' {
            let c = self.next_char().unwrap();
            text.push(c);
            proof {
                assert(text@ =~= s.subrange(p, self.pos as int));
                lemma_digit_run_end(s, self.pos as int);
            }
            while self.is_number(10)
                invariant
                    self.wf(),
                    self.input == old(self).input,
                    q1 + 1 <= self.pos as int <= s.len(),
                    self.nesting == old(self).nesting,
                    self.at_begin_of_line == old(self).at_begin_of_line,
                    self.errored == old(self).errored,
                    text@ == s.subrange(p, self.pos as int),
                    digit_run_end(s, q1 + 1) == digit_run_end(s, self.pos as int),
                decreases s.len() - self.pos,
            {
                let c2 = self.next_char().unwrap();
                text.push(c2);
                proof {
                    assert(text@ =~= s.subrange(p, self.pos as int));
                }
            }
        }
        let ghost q2 = frac_end(s, p);
        proof {
            assert(self.pos as int == q2);
        }
        if self.pos < self.input.len() && (self.input[self.pos] == 'e' || self.input[self.pos]
            == 'E') {
            let c = self.next_char().unwrap();
            text.push(c);
            proof {
                assert(text@ =~= s.subrange(p, self.pos as int));
            }
            if self.pos < self.input.len() && (self.input[self.pos] == '+'
                || self.input[self.pos] == '-') {
                let c2 = self.next_char().unwrap();
                text.push(c2);
                proof {
                    assert(text@ =~= s.subrange(p, self.pos as int));
                }
            }
            let ghost e0 = exp_digits_start(s, p);
            proof {
                assert(self.pos as int == e0);
                lemma_digit_run_end(s, e0);
            }
            let mut got_exp_digit = false;
            while self.is_number(10)
                invariant
                    self.wf(),
                    self.input == old(self).input,
                    e0 <= self.pos as int <= s.len(),
                    self.nesting == old(self).nesting,
                    self.at_begin_of_line == old(self).at_begin_of_line,
                    self.errored == old(self).errored,
                    text@ == s.subrange(p, self.pos as int),
                    digit_run_end(s, e0) == digit_run_end(s, self.pos as int),
                    got_exp_digit == (self.pos as int > e0),
                decreases s.len() - self.pos,
            {
                let c2 = self.next_char().unwrap();
                text.push(c2);
                got_exp_digit = true;
                proof {
                    assert(text@ =~= s.subrange(p, self.pos as int));
                }
            }
            if !got_exp_digit {
                return Err(LexicalError::MalformedNumber { location: start_loc });
            }
        }
        Ok((start_loc, Tok::Float { value: chars_to_string(&text) }, self.get_loc()))
    }

    /// Scan a numeric literal: under a `0x`, `0o` or `0b` prefix with the
    /// radix it fixes, otherwise as a plain decimal or float literal.
    fn lex_number(&mut self) -> (r: Result<Spanned, LexicalError>)
        requires
            old(self).wf(),
            old(self).pos < old(self).input@.len(),
            is_digit(old(self).input@[old(self).pos as int]),
        ensures
            final(self).wf(),
            final(self).input == old(self).input,
            final(self).nesting == old(self).nesting,
            final(self).at_begin_of_line == old(self).at_begin_of_line,
            final(self).errored == old(self).errored,
            old(self).pos < final(self).pos,
            ({
                let s = old(self).input@;
                let p = old(self).pos as int;
                let radix = num_prefix_radix(s, p);
                if radix != 0 {
                    let q = radix_run_end(s, p + 2, radix);
                    let run = s.subrange(p + 2, q);
                    final(self).pos == q && if good_separators(run) {
                        r matches Ok((st, tok, en)) && st == loc_at(s, p) && en == loc_at(
                            s,
                            q,
                        ) && (tok matches Tok::Int { value } && big_value(value)
                            == digits_seq_value(underscores_removed(run), radix))
                    } else {
                        r == Err::<Spanned, LexicalError>(
                            LexicalError::MalformedNumber { location: loc_at(s, p) },
                        )
                    }
                } else if !number_is_float(s, p) {
                    let q1 = digit_run_end(s, p);
                    final(self).pos == q1 && (r matches Ok((st, tok, en)) && st == loc_at(
                        s,
                        p,
                    ) && en == loc_at(s, q1) && (tok matches Tok::Int { value } && big_value(value)
                        == digits_seq_value(s.subrange(p, q1), 10)))
                } else if exponent_ok(s, p) {
                    let q4 = number_end(s, p);
                    final(self).pos == q4 && (r matches Ok((st, tok, en)) && st == loc_at(
                        s,
                        p,
                    ) && en == loc_at(s, q4) && (tok matches Tok::Float { value } && value@
                        == s.subrange(p, q4)))
                } else {
                    r == Err::<Spanned, LexicalError>(
                        LexicalError::MalformedNumber { location: loc_at(s, p) },
                    )
                }
            }),
    {
        let start_loc = self.get_loc();
        if self.input[self.pos] == '0' && self.pos + 1 < self.input.len() {
            let c1 = self.input[self.pos + 1];
            if c1 == 'x' || c1 == 'X' {
                self.next_char();
                self.next_char();
                self.lex_number_with_radix(start_loc, 16)
            } else if c1 == 'o' || c1 == 'O' {
                self.next_char();
                self.next_char();
                self.lex_number_with_radix(start_loc, 8)
            } else if c1 == 'b' || c1 == 'B' {
                self.next_char();
                self.next_char();
                self.lex_number_with_radix(start_loc, 2)
            } else {
                self.lex_normal_number()
            }
        } else {
            self.lex_normal_number()
        }
    }

    /// Scan a string literal, the opening quote at the current position. The
    /// value is everything strictly between the quotes; a string may span
    /// lines, and no escape sequences are recognized, so the next double
    /// quote always closes it. End of input before that quote is an
    /// unterminated-string error.
    #[verifier::loop_isolation(false)]
    fn lex_string(&mut self) -> (r: Result<Spanned, LexicalError>)
        requires
            old(self).wf(),
            old(self).pos < old(self).input@.len(),
            old(self).input@[old(self).pos as int] == '"',
        ensures
            final(self).wf(),
            final(self).input == old(self).input,
            final(self).nesting == old(self).nesting,
            final(self).at_begin_of_line == old(self).at_begin_of_line,
            final(self).errored == old(self).errored,
            old(self).pos < final(self).pos,
            ({
                let s = old(self).input@;
                let p = old(self).pos as int;
                let j = quote_end(s, p + 1);
                if j < s.len() {
                    final(self).pos == j + 1 && (r matches Ok((st, tok, en)) && st == loc_at(
                        s,
                        p,
                    ) && en == loc_at(s, j + 1) && (tok matches Tok::Str { value } && value@
                        == s.subrange(p + 1, j)))
                } else {
                    final(self).pos == s.len() && r == Err::<Spanned, LexicalError>(
                        LexicalError::UnterminatedString { location: loc_at(s, p) },
                    )
                }
            }),
    {
        let ghost s = self.input@;
        let ghost p = self.pos as int;
        proof {
            lemma_quote_end(s, p + 1);
        }
        let start_loc = self.get_loc();
        self.next_char();
        let mut content: Vec<char> = Vec::new();
        proof {
            assert(content@ =~= s.subrange(p + 1, self.pos as int));
        }
        while self.pos < self.input.len() && self.input[self.pos] != '"'
            invariant
                self.wf(),
                self.input == old(self).input,
                p + 1 <= self.pos as int <= s.len(),
                self.nesting == old(self).nesting,
                self.at_begin_of_line == old(self).at_begin_of_line,
                self.errored == old(self).errored,
                content@ == s.subrange(p + 1, self.pos as int),
                quote_end(s, p + 1) == quote_end(s, self.pos as int),
            decreases s.len() - self.pos,
        {
            let c = self.next_char().unwrap();
            content.push(c);
            proof {
                assert(content@ =~= s.subrange(p + 1, self.pos as int));
            }
        }
        if self.pos < self.input.len() {
            self.next_char();
            let tok = Tok::Str { value: chars_to_string(&content) };
            Ok((start_loc, tok, self.get_loc()))
        } else {
            Err(LexicalError::UnterminatedString { location: start_loc })
        }
    }

    /// Emit a single-character token at the current position.
    fn eat_single_char(&mut self, tok: Tok) -> (r: Result<Spanned, LexicalError>)
        requires
            old(self).wf(),
            old(self).pos < old(self).input@.len(),
        ensures
            final(self).wf(),
            final(self).input == old(self).input,
            final(self).nesting == old(self).nesting,
            final(self).at_begin_of_line == old(self).at_begin_of_line,
            final(self).errored == old(self).errored,
            final(self).pos == old(self).pos + 1,
            r matches Ok((st, t, en)) && st == loc_at(old(self).input@, old(self).pos as int)
                && t == tok && en == loc_at(old(self).input@, old(self).pos + 1),
    {
        let tok_start = self.get_loc();
        self.next_char();
        let tok_end = self.get_loc();
        Ok((tok_start, tok, tok_end))
    }

    /// Produce the next token of the stream, or the error that ends it, or
    /// nothing at end of input. This is the tokenizer's classification step:
    /// at each line start (including after a newline suppressed inside
    /// brackets) it first consumes leading whitespace, failing on a tab after
    /// a space, and blank or comment-only line tails; it then skips spaces
    /// and comments, counts bracket nesting, emits newlines only at nesting
    /// depth zero, and classifies the unit at the position where the scan
    /// settles (`scan_next`). After the first error every later call returns
    /// nothing.
    #[verifier::loop_isolation(false)]
    #[verifier::rlimit(100)]
    pub fn next_token(&mut self) -> (r: Option<Result<Spanned, LexicalError>>)
        requires
            old(self).wf(),
        ensures
            final(self).wf(),
            final(self).input == old(self).input,
            old(self).pos <= final(self).pos <= old(self).input@.len(),
            // A finished or failed stream stays finished or failed.
            old(self).errored ==> r is None && *final(self) == *old(self),
            !old(self).errored && r is None ==> final(self).pos == old(self).input@.len()
                && !final(self).errored,
            !old(self).errored && old(self).pos == old(self).input@.len() ==> r is None,
            // Errors end the stream; tokens advance it.
            r matches Some(Err(e)) ==> final(self).errored && final(self).nesting == old(
                self,
            ).nesting,
            r matches Some(Ok(t)) ==> !final(self).errored && final(self).pos > old(self).pos,
            r is None ==> final(self).nesting == old(self).nesting,
            // The scan stands at a line start exactly after a newline token.
            r matches Some(Ok((st, tok, en))) ==> (final(self).at_begin_of_line <==> tok
                == Tok::Newline),
            // Nesting moves only when a bracket token is produced.
            final(self).nesting != old(self).nesting ==> (r matches Some(Ok((st, tok, en))) && (
            tok == Tok::Lparen || tok == Tok::Lbrace || tok == Tok::Lbracket || tok
                == Tok::Rparen || tok == Tok::Rbrace || tok == Tok::Rbracket)),
            // A newline token is emitted only at nesting depth zero, and
            // leaves the scan at the start of the next line.
            r matches Some(Ok((st, tok, en))) ==> (tok == Tok::Newline ==> old(self).nesting
                == 0 && final(self).nesting == 0 && final(self).at_begin_of_line),
            // Every token's end location is the one reached at the new
            // position, and its start location is the one reached at some
            // position inside the consumed stretch.
            r matches Some(Ok((st, tok, en))) ==> en == loc_at(
                old(self).input@,
                final(self).pos as int,
            ) && exists|a: int|
                old(self).pos <= a < final(self).pos && st == loc_at(old(self).input@, a),
            // Classification of the unit at the settled scan position: one
            // case per character class, after any spaces, comments, blank
            // line tails and suppressed newlines are consumed.
            ({
                let s = old(self).input@;
                let p = old(self).pos as int;
                let n = s.len() as int;
                let sc = scan_next(s, p, old(self).at_begin_of_line, old(self).nesting > 0);
                &&& (!old(self).errored && sc is None ==> final(self).errored && (
                r matches Some(Err(e)) && e matches LexicalError::MixedIndentation { location }))
                &&& (!old(self).errored ==> (sc matches Some(q) ==> (if q == n {
                    &&& r is None
                    &&& final(self).pos == n
                } else if is_ident_start(s[q]) {
                    let qe = ident_end(s, q);
                    let run = s.subrange(q, qe);
                    &&& final(self).pos == qe
                    &&& final(self).nesting == old(self).nesting
                    &&& (r matches Some(Ok((st, tok, en))) && st == loc_at(s, q) && en
                        == loc_at(s, qe) && (match keyword_spec(run) {
                        Some(k) => tok == k,
                        None => tok matches Tok::Ident { ident } && ident@ == run,
                    }))
                } else if is_digit(s[q]) {
                    let radix = num_prefix_radix(s, q);
                    &&& final(self).nesting == old(self).nesting
                    &&& (if radix != 0 {
                        let qr = radix_run_end(s, q + 2, radix);
                        let run = s.subrange(q + 2, qr);
                        final(self).pos == qr && (if good_separators(run) {
                            r matches Some(Ok((st, tok, en))) && st == loc_at(s, q) && en
                                == loc_at(s, qr) && (tok matches Tok::Int { value }
                                && big_value(value) == digits_seq_value(
                                underscores_removed(run),
                                radix,
                            ))
                        } else {
                            r == Some(
                                Err::<Spanned, LexicalError>(
                                    LexicalError::MalformedNumber { location: loc_at(s, q) },
                                ),
                            )
                        })
                    } else if !number_is_float(s, q) {
                        let q1 = digit_run_end(s, q);
                        final(self).pos == q1 && (r matches Some(Ok((st, tok, en))) && st
                            == loc_at(s, q) && en == loc_at(s, q1) && (
                        tok matches Tok::Int { value } && big_value(value) == digits_seq_value(
                            s.subrange(q, q1),
                            10,
                        )))
                    } else if exponent_ok(s, q) {
                        let q4 = number_end(s, q);
                        final(self).pos == q4 && (r matches Some(Ok((st, tok, en))) && st
                            == loc_at(s, q) && en == loc_at(s, q4) && (
                        tok matches Tok::Float { value } && value@ == s.subrange(q, q4)))
                    } else {
                        r == Some(
                            Err::<Spanned, LexicalError>(
                                LexicalError::MalformedNumber { location: loc_at(s, q) },
                            ),
                        )
                    })
                } else if s[q] == '"' {
                    let j = quote_end(s, q + 1);
                    &&& final(self).nesting == old(self).nesting
                    &&& (if j < n {
                        final(self).pos == j + 1 && (r matches Some(Ok((st, tok, en))) && st
                            == loc_at(s, q) && en == loc_at(s, j + 1) && (
                        tok matches Tok::Str { value } && value@ == s.subrange(q + 1, j)))
                    } else {
                        final(self).pos == n && r == Some(
                            Err::<Spanned, LexicalError>(
                                LexicalError::UnterminatedString { location: loc_at(s, q) },
                            ),
                        )
                    })
                } else if is_op_char(s[q]) {
                    &&& final(self).nesting == old(self).nesting
                    &&& (if s[q] == '*' && q + 1 < n && s[q + 1] == '*' {
                        if q + 2 < n && s[q + 2] == '=' {
                            final(self).pos == q + 3 && r == Some(
                                Ok::<Spanned, LexicalError>(
                                    (loc_at(s, q), Tok::DoubleStarEqual, loc_at(s, q + 3)),
                                ),
                            )
                        } else {
                            final(self).pos == q + 2 && r == Some(
                                Ok::<Spanned, LexicalError>(
                                    (loc_at(s, q), Tok::DoubleStar, loc_at(s, q + 2)),
                                ),
                            )
                        }
                    } else if q + 1 < n && s[q + 1] == '=' {
                        final(self).pos == q + 2 && r == Some(
                            Ok::<Spanned, LexicalError>(
                                (loc_at(s, q), aug_op_token(s[q]), loc_at(s, q + 2)),
                            ),
                        )
                    } else {
                        final(self).pos == q + 1 && r == Some(
                            Ok::<Spanned, LexicalError>(
                                (loc_at(s, q), plain_op_token(s[q]), loc_at(s, q + 1)),
                            ),
                        )
                    })
                } else if s[q] == '!' {
                    if q + 1 < n && s[q + 1] == '=' {
                        final(self).pos == q + 2 && final(self).nesting == old(self).nesting
                            && r == Some(
                            Ok::<Spanned, LexicalError>(
                                (loc_at(s, q), Tok::NotEqual, loc_at(s, q + 2)),
                            ),
                        )
                    } else {
                        final(self).pos == q + 1 && r == Some(
                            Err::<Spanned, LexicalError>(
                                LexicalError::MalformedOperator { location: loc_at(s, q) },
                            ),
                        )
                    }
                } else if s[q] == '(' || s[q] == '{' || s[q] == '[' {
                    final(self).pos == q + 1 && final(self).nesting == old(self).nesting + 1
                        && r == Some(
                        Ok::<Spanned, LexicalError>(
                            (
                                loc_at(s, q),
                                if s[q] == '(' {
                                    Tok::Lparen
                                } else if s[q] == '{' {
                                    Tok::Lbrace
                                } else {
                                    Tok::Lbracket
                                },
                                loc_at(s, q + 1),
                            ),
                        ),
                    )
                } else if s[q] == ')' || s[q] == '}' || s[q] == ']' {
                    final(self).pos == q + 1 && final(self).nesting == (if old(self).nesting
                        > 0 {
                        (old(self).nesting - 1) as usize
                    } else {
                        0usize
                    }) && r == Some(
                        Ok::<Spanned, LexicalError>(
                            (
                                loc_at(s, q),
                                if s[q] == ')' {
                                    Tok::Rparen
                                } else if s[q] == '}' {
                                    Tok::Rbrace
                                } else {
                                    Tok::Rbracket
                                },
                                loc_at(s, q + 1),
                            ),
                        ),
                    )
                } else if s[q] == ',' || s[q] == '.' {
                    final(self).pos == q + 1 && final(self).nesting == old(self).nesting && r
                        == Some(
                        Ok::<Spanned, LexicalError>(
                            (
                                loc_at(s, q),
                                if s[q] == ',' {
                                    Tok::Comma
                                } else {
                                    Tok::Dot
                                },
                                loc_at(s, q + 1),
                            ),
                        ),
                    )
                } else if s[q] == '\n' {
                    final(self).pos == q + 1 && old(self).nesting == 0 && r == Some(
                        Ok::<Spanned, LexicalError>((loc_at(s, q), Tok::Newline, loc_at(s, q + 1))),
                    )
                } else {
                    final(self).pos == q + 1 && r == Some(
                        Err::<Spanned, LexicalError>(
                            LexicalError::UnrecognizedCharacter { location: loc_at(s, q) },
                        ),
                    )
                })))
            }),
    {
        if self.errored {
            return None;
        }
        let ghost s0 = self.input@;
        let ghost p0 = self.pos as int;
        let ghost b0 = self.at_begin_of_line;
        let ghost nst0 = self.nesting > 0;
        loop
            invariant
                self.wf(),
                self.input == old(self).input,
                old(self).pos <= self.pos,
                self.nesting == old(self).nesting,
                !self.errored,
                !old(self).errored,
                scan_next(s0, p0, b0, nst0) == scan_next(
                    s0,
                    self.pos as int,
                    self.at_begin_of_line,
                    nst0,
                ),
            decreases s0.len() - self.pos,
        {
            if self.at_begin_of_line {
                self.at_begin_of_line = false;
                let ghost line_p = self.pos as int;
                proof {
                    lemma_ws_end(s0, line_p);
                }
                let mut spaces: usize = 0;
                let mut tabs: usize = 0;
                while self.pos < self.input.len() && (self.input[self.pos] == ' '
                    || self.input[self.pos] == '\t')
                    invariant
                        self.wf(),
                        self.input == old(self).input,
                        old(self).pos <= line_p <= self.pos as int <= s0.len(),
                        self.nesting == old(self).nesting,
                        !self.errored,
                        !self.at_begin_of_line,
                        scan_next(s0, p0, b0, nst0) == scan_next(s0, line_p, true, nst0),
                        ws_end(s0, line_p) == ws_end(s0, self.pos as int),
                        forall|i: int|
                            line_p <= i < self.pos ==> (#[trigger] s0[i]) == ' ' || s0[i]
                                == '\t',
                        (spaces > 0) == (exists|i: int|
                            line_p <= i < self.pos && (#[trigger] s0[i]) == ' '),
                        forall|i: int, j: int|
                            #![trigger s0[i], s0[j]]
                            line_p <= i < j < self.pos ==> !(s0[i] == ' ' && s0[j] == '\t'),
                        spaces <= self.pos,
                        tabs <= self.pos,
                    decreases s0.len() - self.pos,
                {
                    let c = self.input[self.pos];
                    if c == '\t' && spaces > 0 {
                        let bad_loc = self.get_loc();
                        self.errored = true;
                        proof {
                            let i0 = choose|i: int|
                                line_p <= i < self.pos && (#[trigger] s0[i]) == ' ';
                            assert(self.pos < ws_end(s0, line_p));
                            assert(s0[i0] == ' ' && s0[self.pos as int] == '\t');
                            assert(mixed_indent(s0, line_p));
                        }
                        return Some(Err(LexicalError::MixedIndentation { location: bad_loc }));
                    }
                    self.next_char();
                    if c == ' ' {
                        spaces = spaces + 1;
                    } else {
                        tabs = tabs + 1;
                    }
                }
                proof {
                    assert(self.pos as int == ws_end(s0, line_p));
                    if mixed_indent(s0, line_p) {
                        let (i, j) = choose|i: int, j: int|
                            #![trigger s0[i], s0[j]]
                            line_p <= i < j < ws_end(s0, line_p) && s0[i] == ' ' && s0[j]
                                == '\t';
                        assert(false);
                    }
                }
                if self.pos < self.input.len() && self.input[self.pos] == '/' && self.pos + 1
                    < self.input.len() && self.input[self.pos + 1] == '/' {
                    proof {
                        lemma_line_end(s0, self.pos + 1);
                        assert(line_end(s0, self.pos as int) == line_end(s0, self.pos + 1));
                    }
                    self.lex_comment();
                    self.at_begin_of_line = true;
                    continue ;
                }
                if self.pos < self.input.len() && self.input[self.pos] == '\n' {
                    self.next_char();
                    self.at_begin_of_line = true;
                    continue ;
                }
            }
            if self.pos == self.input.len() {
                return None;
            }
            let c = self.input[self.pos];
            if c == '_' || ('a' <= c && c <= 'z') || ('A' <= c && c <= 'Z') {
                return Some(self.lex_identifier());
            } else if '0' <= c && c <= '9' {
                let res = self.lex_number();
                if res.is_err() {
                    self.errored = true;
                }
                return Some(res);
            } else if c == '"' {
                let res = self.lex_string();
                if res.is_err() {
                    self.errored = true;
                }
                return Some(res);
            } else if c == '=' || c == '+' || c == '-' || c == '%' || c == '<' || c == '>' {
                let tok_start = self.get_loc();
                self.next_char();
                if self.pos < self.input.len() && self.input[self.pos] == '=' {
                    self.next_char();
                    return Some(Ok((tok_start, aug_op_of(c), self.get_loc())));
                } else {
                    return Some(Ok((tok_start, plain_op_of(c), self.get_loc())));
                }
            } else if c == '*' {
                let tok_start = self.get_loc();
                self.next_char();
                if self.pos < self.input.len() && self.input[self.pos] == '=' {
                    self.next_char();
                    return Some(Ok((tok_start, Tok::StarEqual, self.get_loc())));
                } else if self.pos < self.input.len() && self.input[self.pos] == '*' {
                    self.next_char();
                    if self.pos < self.input.len() && self.input[self.pos] == '=' {
                        self.next_char();
                        return Some(Ok((tok_start, Tok::DoubleStarEqual, self.get_loc())));
                    } else {
                        return Some(Ok((tok_start, Tok::DoubleStar, self.get_loc())));
                    }
                } else {
                    return Some(Ok((tok_start, Tok::Star, self.get_loc())));
                }
            } else if c == '/' {
                if self.pos + 1 < self.input.len() && self.input[self.pos + 1] == '/' {
                    proof {
                        lemma_line_end(s0, self.pos + 1);
                        assert(line_end(s0, self.pos as int) == line_end(s0, self.pos + 1));
                    }
                    self.lex_comment();
                    continue ;
                }
                let tok_start = self.get_loc();
                self.next_char();
                if self.pos < self.input.len() && self.input[self.pos] == '=' {
                    self.next_char();
                    return Some(Ok((tok_start, Tok::SlashEqual, self.get_loc())));
                } else {
                    return Some(Ok((tok_start, Tok::Slash, self.get_loc())));
                }
            } else if c == '!' {
                let tok_start = self.get_loc();
                self.next_char();
                if self.pos < self.input.len() && self.input[self.pos] == '=' {
                    self.next_char();
                    return Some(Ok((tok_start, Tok::NotEqual, self.get_loc())));
                } else {
                    self.errored = true;
                    return Some(Err(LexicalError::MalformedOperator { location: tok_start }));
                }
            } else if c == '(' {
                let result = self.eat_single_char(Tok::Lparen);
                self.nesting = self.nesting + 1;
                return Some(result);
            } else if c == ')' {
                let result = self.eat_single_char(Tok::Rparen);
                if self.nesting > 0 {
                    self.nesting = self.nesting - 1;
                }
                return Some(result);
            } else if c == '{' {
                let result = self.eat_single_char(Tok::Lbrace);
                self.nesting = self.nesting + 1;
                return Some(result);
            } else if c == '}' {
                let result = self.eat_single_char(Tok::Rbrace);
                if self.nesting > 0 {
                    self.nesting = self.nesting - 1;
                }
                return Some(result);
            } else if c == '[' {
                let result = self.eat_single_char(Tok::Lbracket);
                self.nesting = self.nesting + 1;
                return Some(result);
            } else if c == ']' {
                let result = self.eat_single_char(Tok::Rbracket);
                if self.nesting > 0 {
                    self.nesting = self.nesting - 1;
                }
                return Some(result);
            } else if c == ',' {
                return Some(self.eat_single_char(Tok::Comma));
            } else if c == '.' {
                return Some(self.eat_single_char(Tok::Dot));
            } else if c == '\n' {
                let tok_start = self.get_loc();
                self.next_char();
                let tok_end = self.get_loc();
                if self.nesting == 0 {
                    self.at_begin_of_line = true;
                    return Some(Ok((tok_start, Tok::Newline, tok_end)));
                } else {
                    // A suppressed newline still begins a physical line.
                    self.at_begin_of_line = true;
                    continue ;
                }
            } else if c == ' ' {
                self.next_char();
                continue ;
            } else {
                let bad_loc = self.get_loc();
                self.errored = true;
                self.next_char();
                return Some(Err(LexicalError::UnrecognizedCharacter { location: bad_loc }));
            }
        }
    }
}

/// Whether the token is an integer literal carrying the value `v`.
pub open spec fn int_tok_with(t: Tok, v: int) -> bool {
    t matches Tok::Int { value } && big_value(value) == v
}

/// Whether the very first lexical unit of `s` fails: the scan from the start
/// hits mixed indentation, or settles on an unterminated string, a stray
/// `!`, or an unrecognized character.
pub open spec fn first_lex_error(s: Seq<char>) -> bool {
    let n = s.len() as int;
    match scan_next(s, 0, true, false) {
        Option::None => true,
        Option::Some(q) => q < n && ((s[q] == '"' && quote_end(s, q + 1) >= n) || (s[q] == '!'
            && (q + 1 == n || s[q + 1] != '=')) || !recognized_char(s[q])),
    }
}

/// The error that the failing first lexical unit of `s` produces.
pub open spec fn first_lex_error_matches(s: Seq<char>, e: Option<LexicalError>) -> bool {
    let n = s.len() as int;
    match scan_next(s, 0, true, false) {
        Option::None => e matches Some(er) && er matches LexicalError::MixedIndentation {
            location,
        },
        Option::Some(q) => {
            if q < n && s[q] == '"' && quote_end(s, q + 1) >= n {
                e == Some(LexicalError::UnterminatedString { location: loc_at(s, q) })
            } else if q < n && s[q] == '!' && (q + 1 == n || s[q + 1] != '=') {
                e == Some(LexicalError::MalformedOperator { location: loc_at(s, q) })
            } else if q < n && !recognized_char(s[q]) {
                e == Some(LexicalError::UnrecognizedCharacter { location: loc_at(s, q) })
            } else {
                true
            }
        },
    }
}

/// Whether `s` is one identifier-shaped word: an identifier start character
/// followed only by identifier characters.
pub open spec fn ident_shaped(s: Seq<char>) -> bool {
    s.len() > 0 && is_ident_start(s[0]) && (forall|i: int|
        0 <= i < s.len() ==> is_ident_char(#[trigger] s[i]))
}

/// Whether `s` is one decimal integer literal, a `+`, and a second decimal
/// integer literal, the `+` standing at position `k`.
pub open spec fn int_plus_int_at(s: Seq<char>, k: int) -> bool {
    &&& 0 < k
    &&& k + 1 < s.len()
    &&& s[k] == '+'
    &&& forall|i: int| 0 <= i < k ==> is_digit(#[trigger] s[i])
    &&& forall|i: int| k < i < s.len() ==> is_digit(#[trigger] s[i])
}

/// Only one position in `s` can split it into two integer literals joined by
/// `+`: the digits on either side of a split leave no room for another `+`.
pub proof fn lemma_int_plus_int_unique(s: Seq<char>, k1: int, k2: int)
    requires
        int_plus_int_at(s, k1),
        int_plus_int_at(s, k2),
    ensures
        k1 == k2,
{
    if k1 < k2 {
        assert(is_digit(s[k2]));
    }
    if k2 < k1 {
        assert(is_digit(s[k1]));
    }
}

/// Run the tokenizer over `source` to the end: the tokens produced, in
/// order, with the error that ended the scan, if one did. Tokenizing a
/// well-formed decimal integer literal of any magnitude yields exactly one
/// `Int` token carrying its value; tokenizing two such literals joined by
/// `+` yields exactly the two `Int` tokens around a `Plus`.
#[verifier::loop_isolation(false)]
pub fn tokenize(source: &str) -> (res: (Vec<Spanned>, Option<LexicalError>))
    requires
        source@.len() < usize::MAX,
    ensures
        ({
            let s = source@;
            (s.len() > 0 && (forall|i: int| 0 <= i < s.len() ==> is_digit(#[trigger] s[i])))
                ==> {
                &&& res.1 is None
                &&& res.0@.len() == 1
                &&& res.0@[0].0 == loc_at(s, 0)
                &&& res.0@[0].2 == loc_at(s, s.len() as int)
                &&& (res.0@[0].1 matches Tok::Int { value } && big_value(value)
                    == digits_seq_value(s, 10))
            }
        }),
        forall|k: int| #[trigger] int_plus_int_at(source@, k) ==> {
            &&& res.1 is None
            &&& res.0@.len() == 3
            &&& int_tok_with(res.0@[0].1, digits_seq_value(source@.subrange(0, k), 10))
            &&& res.0@[1].1 == Tok::Plus
            &&& int_tok_with(
                res.0@[2].1,
                digits_seq_value(source@.subrange(k + 1, source@.len() as int), 10),
            )
        },
        ({
            let s = source@;
            ident_shaped(s) ==> {
                &&& res.1 is None
                &&& res.0@.len() == 1
                &&& res.0@[0].0 == loc_at(s, 0)
                &&& res.0@[0].2 == loc_at(s, s.len() as int)
                &&& (match keyword_spec(s) {
                    Some(k) => res.0@[0].1 == k,
                    None => res.0@[0].1 matches Tok::Ident { ident } && ident@ == s,
                })
            }
        }),
        first_lex_error(source@) ==> res.0@.len() == 0 && first_lex_error_matches(
            source@,
            res.1,
        ),
{
    let ghost s = source@;
    let ghost all_digits = s.len() > 0 && (forall|i: int|
        0 <= i < s.len() ==> is_digit(#[trigger] s[i]));
    let ghost has_split = exists|k: int| int_plus_int_at(s, k);
    let ghost k0 = if has_split {
        choose|k: int| int_plus_int_at(s, k)
    } else {
        0int
    };
    let ghost kw_guard = ident_shaped(s);
    let ghost fe_guard = first_lex_error(s);
    let mut lexer = make_tokenizer(source);
    let mut toks: Vec<Spanned> = Vec::new();
    let mut err: Option<LexicalError> = None;
    let mut done = false;
    while !done
        invariant
            lexer.wf(),
            lexer.input@ == s,
            err is None ==> !lexer.errored,
            err is Some ==> lexer.errored,
            all_digits ==> err is None && ((toks@.len() == 0 && lexer.pos == 0 && !lexer.errored
                && lexer.nesting == 0) || (toks@.len() == 1 && lexer.pos == s.len()
                && !lexer.errored && toks@[0].0 == loc_at(s, 0) && toks@[0].2 == loc_at(
                s,
                s.len() as int,
            ) && (toks@[0].1 matches Tok::Int { value } && big_value(value) == digits_seq_value(
                s,
                10,
            )))),
            done && all_digits ==> toks@.len() == 1,
            has_split ==> err is None && !lexer.errored && ((toks@.len() == 0 && lexer.pos == 0)
                || (toks@.len() == 1 && lexer.pos as int == k0 && int_tok_with(
                toks@[0].1,
                digits_seq_value(s.subrange(0, k0), 10),
            )) || (toks@.len() == 2 && lexer.pos as int == k0 + 1 && int_tok_with(
                toks@[0].1,
                digits_seq_value(s.subrange(0, k0), 10),
            ) && toks@[1].1 == Tok::Plus) || (toks@.len() == 3 && lexer.pos == s.len()
                && int_tok_with(toks@[0].1, digits_seq_value(s.subrange(0, k0), 10))
                && toks@[1].1 == Tok::Plus && int_tok_with(
                toks@[2].1,
                digits_seq_value(s.subrange(k0 + 1, s.len() as int), 10),
            ))),
            done && has_split ==> toks@.len() == 3,
            kw_guard ==> err is None && !lexer.errored && ((toks@.len() == 0 && lexer.pos == 0
                && lexer.at_begin_of_line && lexer.nesting == 0) || (toks@.len() == 1
                && lexer.pos == s.len() && toks@[0].0 == loc_at(s, 0) && toks@[0].2 == loc_at(
                s,
                s.len() as int,
            ) && (match keyword_spec(s) {
                Some(k) => toks@[0].1 == k,
                None => toks@[0].1 matches Tok::Ident { ident } && ident@ == s,
            }))),
            done && kw_guard ==> toks@.len() == 1,
            fe_guard ==> ((toks@.len() == 0 && lexer.pos == 0 && lexer.at_begin_of_line
                && lexer.nesting == 0 && !lexer.errored && err is None) || (toks@.len() == 0
                && lexer.errored && first_lex_error_matches(s, err))),
            done && fe_guard ==> toks@.len() == 0 && first_lex_error_matches(s, err),
        decreases s.len() - lexer.pos, (if lexer.errored {
            0int
        } else {
            1int
        }), (if done {
            0int
        } else {
            1int
        }),
    {
        proof {
            if all_digits {
                lemma_digit_run_end(s, 0);
                assert(s.subrange(0, s.len() as int) =~= s);
                if digit_run_end(s, 0) < s.len() {
                    assert(is_digit(s[digit_run_end(s, 0)]));
                }
            }
            if kw_guard {
                lemma_ident_end(s, 0);
                assert(s.subrange(0, s.len() as int) =~= s);
                if ident_end(s, 0) < s.len() {
                    assert(is_ident_char(s[ident_end(s, 0)]));
                }
                assert(is_ident_start(s[0]));
                assert(ws_end(s, 0) == 0);
                assert(scan_next(s, 0, true, false) == Some(0int));
            }
            if has_split {
                assert(int_plus_int_at(s, k0));
                lemma_digit_run_end(s, 0);
                let e0 = digit_run_end(s, 0);
                if e0 < k0 {
                    assert(is_digit(s[e0]));
                    assert(false);
                }
                if e0 > k0 {
                    assert(is_digit(s[k0]));
                    assert(false);
                }
                lemma_digit_run_end(s, k0 + 1);
                let e2 = digit_run_end(s, k0 + 1);
                if e2 < s.len() {
                    assert(is_digit(s[e2]));
                    assert(false);
                }
                assert(is_digit(s[0]));
                assert(is_digit(s[k0 + 1]));
            }
        }
        match lexer.next_token() {
            Option::None => {
                done = true;
            },
            Option::Some(step) => {
                match step {
                    Ok(t) => {
                        toks.push(t);
                    },
                    Err(e) => {
                        err = Some(e);
                    },
                }
            },
        }
    }
    proof {
        assert forall|k: int| #[trigger] int_plus_int_at(s, k) implies {
            &&& err is None
            &&& toks@.len() == 3
            &&& int_tok_with(toks@[0].1, digits_seq_value(s.subrange(0, k), 10))
            &&& toks@[1].1 == Tok::Plus
            &&& int_tok_with(toks@[2].1, digits_seq_value(s.subrange(k + 1, s.len() as int), 10))
        } by {
            lemma_int_plus_int_unique(s, k, k0);
        }
    }
    (toks, err)
}

/// Build a tokenizer over the characters of `source`.
#[verifier::loop_isolation(false)]
pub fn make_tokenizer(source: &str) -> (r: Lexer)
    requires
        source@.len() < usize::MAX,
    ensures
        r.wf(),
        r.input@ == source@,
        r.pos == 0,
        r.at_begin_of_line,
        r.nesting == 0,
        !r.errored,
{
    let n = source.unicode_len();
    let mut chars: Vec<char> = Vec::new();
    let mut i: usize = 0;
    proof {
        assert(chars@ =~= source@.subrange(0, 0));
    }
    while i < n
        invariant
            n == source@.len(),
            i <= n,
            chars@ == source@.subrange(0, i as int),
        decreases n - i,
    {
        chars.push(source.get_char(i));
        i = i + 1;
        proof {
            assert(chars@ =~= source@.subrange(0, i as int));
        }
    }
    proof {
        assert(chars@ =~= source@);
    }
    Lexer::new(chars)
}

} // verus!

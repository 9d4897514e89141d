//! Source positions: a (row, column) location, both 1-based, and the spec-level
//! model of how a location advances over consumed characters.

use vstd::prelude::*;

verus! {

/// A position in source text. Rows and columns start at 1; the column advances
/// by one per consumed character, and a consumed newline moves to the start of
/// the next row.
#[derive(Clone, Copy, Debug, PartialEq, Eq, Structural)]
pub struct Location {
    pub row: usize,
    pub column: usize,
}

impl Location {
    pub fn new(row: usize, column: usize) -> (r: Self)
        ensures
            r.row == row,
            r.column == column,
    {
        Location { row, column }
    }

    pub fn get_row(&self) -> (r: usize)
        ensures
            r == self.row,
    {
        self.row
    }

    pub fn get_column(&self) -> (r: usize)
        ensures
            r == self.column,
    {
        self.column
    }
}

/// The (row, column) reached after consuming the first `n` characters of `s`,
/// starting from (1, 1): each character advances the column by one, and a
/// newline instead moves to the start of the next row.
pub open spec fn loc_after(s: Seq<char>, n: int) -> (int, int)
    decreases n,
{
    if n <= 0 {
        (1int, 1int)
    } else {
        let prev = loc_after(s, n - 1);
        if s[n - 1] == '\n' {
            (prev.0 + 1, 1int)
        } else {
            (prev.0, prev.1 + 1)
        }
    }
}

/// The location reached after `n` characters of `s`, as an exec value.
pub open spec fn loc_at(s: Seq<char>, n: int) -> Location {
    Location { row: loc_after(s, n).0 as usize, column: loc_after(s, n).1 as usize }
}

/// Rows and columns stay within 1 ..= n + 1 after n characters, so they fit in
/// a machine word whenever n does.
pub proof fn lemma_loc_after_bounds(s: Seq<char>, n: int)
    requires
        n >= 0,
    ensures
        1 <= loc_after(s, n).0 <= n + 1,
        1 <= loc_after(s, n).1 <= n + 1,
    decreases n,
{
    if n > 0 {
        lemma_loc_after_bounds(s, n - 1);
    }
}

/// Location tracking over a newline-free stretch: consuming the characters
/// between positions `p0` and `p1`, none of which is a newline, keeps the row
/// and advances the column by exactly the number of characters consumed.
pub proof fn lemma_span_no_newline(s: Seq<char>, p0: int, p1: int)
    requires
        0 <= p0 <= p1,
        forall|i: int| p0 <= i < p1 ==> s[i] != '\n',
    ensures
        loc_after(s, p1).0 == loc_after(s, p0).0,
        loc_after(s, p1).1 == loc_after(s, p0).1 + (p1 - p0),
    decreases p1 - p0,
{
    if p1 > p0 {
        lemma_span_no_newline(s, p0, p1 - 1);
    }
}

/// Location tracking across a newline: consuming a newline character resets
/// the column to 1 and increments the row by exactly one.
pub proof fn lemma_span_newline(s: Seq<char>, p: int)
    requires
        0 <= p,
        s[p] == '\n',
    ensures
        loc_after(s, p + 1).0 == loc_after(s, p).0 + 1,
        loc_after(s, p + 1).1 == 1,
{
}

} // verus!

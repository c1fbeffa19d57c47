//! Source locations: a filename label with a line and column, attached to
//! every token and tree node for diagnostics.

use vstd::prelude::*;

use crate::chars::dec_digits;

verus! {

/// Mathematical model of a [`Location`].
#[verifier::ext_equal]
pub ghost struct SpecLoc {
    pub filename: Seq<char>,
    pub line: int,
    pub col: int,
}

/// A position in the source text: filename label, line (starting at 1) and
/// column (starting at 0). Rendered as `file:line:col`.
#[derive(Debug)]
pub struct Location {
    pub filename: Vec<char>,
    pub line: usize,
    pub col: usize,
}

impl View for Location {
    type V = SpecLoc;

    open spec fn view(&self) -> SpecLoc {
        SpecLoc { filename: self.filename@, line: self.line as int, col: self.col as int }
    }
}

impl Clone for Location {
    fn clone(&self) -> (r: Self)
        ensures
            r@ == self@,
    {
        let r = Location {
            filename: crate::chars::copy_chars(&self.filename),
            line: self.line,
            col: self.col,
        };
        proof {
            assert(r@ =~= self@);
        }
        r
    }
}

/// Location after consuming one character: a line feed starts a new line,
/// any other character advances the column.
pub open spec fn next_loc(l: SpecLoc, c: char) -> SpecLoc {
    if c == '\n' {
        SpecLoc { filename: l.filename, line: l.line + 1, col: 0 }
    } else {
        SpecLoc { filename: l.filename, line: l.line, col: l.col + 1 }
    }
}

/// Location after consuming a sequence of characters in order.
pub open spec fn advance_loc_seq(l: SpecLoc, s: Seq<char>) -> SpecLoc
    decreases s.len(),
{
    if s.len() == 0 {
        l
    } else {
        advance_loc_seq(next_loc(l, s[0]), s.drop_first())
    }
}

/// Consuming one more character on the right composes with `next_loc`.
pub proof fn lemma_advance_loc_snoc(l: SpecLoc, s: Seq<char>, c: char)
    ensures
        advance_loc_seq(l, s.push(c)) == next_loc(advance_loc_seq(l, s), c),
    decreases s.len(),
{
    if s.len() == 0 {
        assert(s.push(c).drop_first() =~= Seq::<char>::empty());
        assert(advance_loc_seq(l, s.push(c)) == advance_loc_seq(next_loc(l, c), Seq::empty()));
    } else {
        assert(s.push(c)[0] == s[0]);
        assert(s.push(c).drop_first() =~= s.drop_first().push(c));
        lemma_advance_loc_snoc(next_loc(l, s[0]), s.drop_first(), c);
    }
}

/// Rendering of a location as `file:line:col`.
pub open spec fn render_loc(l: SpecLoc) -> Seq<char> {
    l.filename + seq![':'] + dec_digits(l.line) + seq![':'] + dec_digits(l.col)
}

/// Anything that derives a source location: tree nodes report where they
/// were written, for diagnostics.
pub trait HasLocation {
    /// The node's location, at the specification level.
    spec fn spec_location(&self) -> SpecLoc;

    /// The node's location.
    fn get_location(&self) -> (l: &Location)
        ensures
            l@ == self.spec_location(),
    ;
}

impl Location {
    /// The `file:line:col` rendering used in diagnostics.
    pub fn render(&self) -> (v: Vec<char>)
        ensures
            v@ == render_loc(self@),
    {
        let mut v = crate::chars::copy_chars(&self.filename);
        v.push(':');
        let line = crate::chars::render_usize(self.line);
        crate::chars::append_chars(&mut v, &line);
        v.push(':');
        let col = crate::chars::render_usize(self.col);
        crate::chars::append_chars(&mut v, &col);
        proof {
            assert(v@ =~= render_loc(self@));
        }
        v
    }
}

} // verus!

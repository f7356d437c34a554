use vstd::prelude::*;

use crate::error::ParseErrorView;
use crate::number::{is_num_char, is_number, scaled};

verus! {

/// A letter that may end a token: ASCII lowercase.
pub open spec fn is_unit_char(c: char) -> bool {
    'a' <= c && c <= 'z'
}

/// Unicode white space, the one character a token may hold between its
/// number and its letter.
pub open spec fn is_space(c: char) -> bool {
    ||| '\t' <= c && c <= '\r'
    ||| c == ' '
    ||| c == '\u{85}'
    ||| c == '\u{a0}'
    ||| c == '\u{1680}'
    ||| '\u{2000}' <= c && c <= '\u{200a}'
    ||| c == '\u{2028}'
    ||| c == '\u{2029}'
    ||| c == '\u{202f}'
    ||| c == '\u{205f}'
    ||| c == '\u{3000}'
}

/// A unit of time that a token may name.
#[derive(Clone, Copy, Debug, PartialEq, Eq, Structural)]
pub enum Unit {
    Day,
    Hour,
    Minute,
    Second,
}

impl Unit {
    /// Seconds in one of this unit.
    pub open spec fn spec_factor(self) -> nat {
        match self {
            Unit::Day => 86400,
            Unit::Hour => 3600,
            Unit::Minute => 60,
            Unit::Second => 1,
        }
    }

    pub fn factor(&self) -> (r: u64)
        ensures
            r == self.spec_factor(),
    {
        match self {
            Unit::Day => 86400,
            Unit::Hour => 3600,
            Unit::Minute => 60,
            Unit::Second => 1,
        }
    }

    /// The unit that a token's letter names.
    pub fn from_letter(c: char) -> (r: Option<Unit>)
        ensures
            r == unit_of(c),
    {
        if c == 'd' {
            Some(Unit::Day)
        } else if c == 'h' {
            Some(Unit::Hour)
        } else if c == 'm' {
            Some(Unit::Minute)
        } else if c == 's' {
            Some(Unit::Second)
        } else {
            None
        }
    }
}

pub open spec fn unit_of(c: char) -> Option<Unit> {
    if c == 'd' {
        Some(Unit::Day)
    } else if c == 'h' {
        Some(Unit::Hour)
    } else if c == 'm' {
        Some(Unit::Minute)
    } else if c == 's' {
        Some(Unit::Second)
    } else {
        None
    }
}

/// Length of the run of digits and points that starts at `i`.
pub open spec fn run_len(s: Seq<char>, i: int) -> nat
    decreases s.len() - i,
{
    if 0 <= i < s.len() && is_num_char(s[i]) {
        1 + run_len(s, i + 1)
    } else {
        0
    }
}

/// The tokens of `s` from position `i` on, left to right, each as its
/// numeric run and its letter. A token is a maximal run of digits and points,
/// then at most one white space, then a lowercase letter; what stands between
/// tokens is skipped.
pub open spec fn tokens_from(s: Seq<char>, i: int) -> Seq<(Seq<char>, char)>
    decreases s.len() - i,
{
    if i < 0 || i >= s.len() {
        Seq::empty()
    } else if !is_num_char(s[i]) {
        tokens_from(s, i + 1)
    } else {
        let j = i + 1 + run_len(s, i + 1);
        if j < s.len() && is_unit_char(s[j]) {
            seq![(s.subrange(i, j), s[j])] + tokens_from(s, j + 1)
        } else if j + 1 < s.len() && is_space(s[j]) && is_unit_char(s[j + 1]) {
            seq![(s.subrange(i, j), s[j + 1])] + tokens_from(s, j + 2)
        } else if j < s.len() {
            tokens_from(s, j)
        } else {
            Seq::empty()
        }
    }
}

pub open spec fn tokens(s: Seq<char>) -> Seq<(Seq<char>, char)> {
    tokens_from(s, 0)
}

/// Whole seconds that one token stands for, or why it stands for none.
pub open spec fn token_outcome(tok: (Seq<char>, char)) -> Result<nat, ParseErrorView> {
    if !is_number(tok.0) {
        Err(ParseErrorView::InvalidNumber(tok.0))
    } else {
        match unit_of(tok.1) {
            Some(u) => Ok(scaled(tok.0, u.spec_factor())),
            None => Err(ParseErrorView::UnknownUnit(seq![tok.1])),
        }
    }
}

/// `r` with `a` more seconds, when it is a success.
pub open spec fn plus(a: nat, r: Result<nat, ParseErrorView>) -> Result<nat, ParseErrorView> {
    match r {
        Ok(n) => Ok(a + n),
        Err(e) => Err(e),
    }
}

/// The sum of the tokens' seconds, or the first token's failure.
pub open spec fn eval(toks: Seq<(Seq<char>, char)>) -> Result<nat, ParseErrorView>
    decreases toks.len(),
{
    if toks.len() == 0 {
        Ok(0)
    } else {
        match token_outcome(toks[0]) {
            Ok(v) => plus(v, eval(toks.drop_first())),
            Err(e) => Err(e),
        }
    }
}

/// What the text `s` denotes: its total in whole seconds, unbounded, or the
/// failure of its first faulty token.
pub open spec fn duration_of(s: Seq<char>) -> Result<nat, ParseErrorView> {
    eval(tokens(s))
}

pub fn is_unit_letter(c: char) -> (r: bool)
    ensures
        r == is_unit_char(c),
{
    'a' <= c && c <= 'z'
}

pub fn is_space_char(c: char) -> (r: bool)
    ensures
        r == is_space(c),
{
    ('\t' <= c && c <= '\r') || c == ' ' || c == '\u{85}' || c == '\u{a0}' || c == '\u{1680}' || (
    '\u{2000}' <= c && c <= '\u{200a}') || c == '\u{2028}' || c == '\u{2029}' || c == '\u{202f}'
        || c == '\u{205f}' || c == '\u{3000}'
}

pub fn is_number_char(c: char) -> (r: bool)
    ensures
        r == is_num_char(c),
{
    ('0' <= c && c <= '9') || c == '.'
}

} // verus!

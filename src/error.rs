use vstd::prelude::*;

verus! {

/// Why a text does not denote a duration.
#[derive(Clone, Debug, PartialEq, Eq)]
pub enum ParseError {
    /// The numeric run of a token, which does not read as a number.
    InvalidNumber(String),
    /// The letter of a token, which names no unit.
    UnknownUnit(String),
}

/// A `ParseError` with its text as characters.
pub enum ParseErrorView {
    InvalidNumber(Seq<char>),
    UnknownUnit(Seq<char>),
}

impl View for ParseError {
    type V = ParseErrorView;

    open spec fn view(&self) -> ParseErrorView {
        match self {
            ParseError::InvalidNumber(s) => ParseErrorView::InvalidNumber(s@),
            ParseError::UnknownUnit(s) => ParseErrorView::UnknownUnit(s@),
        }
    }
}

impl ParseError {
    pub open spec fn spec_message(&self) -> Seq<char> {
        match self {
            ParseError::InvalidNumber(s) => s@ + " should be a number"@,
            ParseError::UnknownUnit(s) => "unknown unit: "@ + s@,
        }
    }

    /// A sentence that names the offending text.
    pub fn message(&self) -> (r: String)
        ensures
            r@ == self.spec_message(),
    {
        match self {
            ParseError::InvalidNumber(s) => {
                let mut m = s.clone();
                m.append(" should be a number");
                m
            },
            ParseError::UnknownUnit(s) => {
                let mut m = String::from_str("unknown unit: ");
                m.append(s.as_str());
                m
            },
        }
    }
}

} // verus!

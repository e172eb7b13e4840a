use vstd::prelude::*;

use crate::error::ParseError;

verus! {

/// Where the parser stands within a document.
#[derive(Clone, Copy, Debug, PartialEq, Eq, Structural)]
pub enum ParseState {
    Start,
    InMetadata,
    ExpectingQuestion,
    InQuestion,
    InAnswer,
}

impl ParseState {
    /// The state reached when the current state "advances".
    pub open spec fn succ(self) -> ParseState {
        match self {
            ParseState::Start => ParseState::InMetadata,
            ParseState::InMetadata => ParseState::ExpectingQuestion,
            ParseState::ExpectingQuestion => ParseState::InQuestion,
            ParseState::InQuestion => ParseState::InAnswer,
            ParseState::InAnswer => ParseState::InQuestion,
        }
    }

    pub fn next(&self) -> (r: ParseState)
        ensures
            r == self.succ(),
    {
        match self {
            ParseState::Start => ParseState::InMetadata,
            ParseState::InMetadata => ParseState::ExpectingQuestion,
            ParseState::ExpectingQuestion => ParseState::InQuestion,
            ParseState::InQuestion => ParseState::InAnswer,
            ParseState::InAnswer => ParseState::InQuestion,
        }
    }

    /// Leaves a finished document: only legal from `InAnswer`.
    pub fn reset(&self) -> (r: Result<ParseState, ParseError>)
        ensures
            *self == ParseState::InAnswer ==> r == Ok::<ParseState, ParseError>(ParseState::Start),
            *self != ParseState::InAnswer ==> (r matches Err(e) && e is UnexpectedParsingEnd),
    {
        match self {
            ParseState::InAnswer => Ok(ParseState::Start),
            _ => Err(ParseError::UnexpectedParsingEnd),
        }
    }

    /// The state's name, as shown in diagnostics.
    pub fn name(&self) -> (r: &'static str)
        ensures
            r@ == state_name(*self),
    {
        match self {
            ParseState::Start => "Start",
            ParseState::InMetadata => "InMetadata",
            ParseState::ExpectingQuestion => "ExpectingQuestion",
            ParseState::InQuestion => "InQuestion",
            ParseState::InAnswer => "InAnswer",
        }
    }
}

pub open spec fn state_name(s: ParseState) -> Seq<char> {
    match s {
        ParseState::Start => "Start"@,
        ParseState::InMetadata => "InMetadata"@,
        ParseState::ExpectingQuestion => "ExpectingQuestion"@,
        ParseState::InQuestion => "InQuestion"@,
        ParseState::InAnswer => "InAnswer"@,
    }
}

} // verus!

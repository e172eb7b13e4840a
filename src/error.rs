use vstd::prelude::*;

verus! {

/// `std::io::Error` is carried through unread, from reading a document.
#[verifier::external_type_specification]
#[verifier::external_body]
pub struct ExIoError(std::io::Error);

/// Why a document could not be turned into notes.
#[derive(Debug)]
pub enum ParseError {
    /// An event arrived in a state with no transition for it; holds the 0-based line.
    InvalidStateChange(u128),
    /// The document ended outside an answer.
    UnexpectedParsingEnd,
    /// A metadata line is malformed or uses an unknown key; holds a message naming the line.
    InvalidMetadata(String),
    /// A note was to be assembled before any deck was declared.
    MissingDeck,
    /// Reading the document failed.
    IOError(std::io::Error),
}

/// The mathematical model of a `ParseError`.
pub enum ParseFailure {
    InvalidStateChange(int),
    UnexpectedParsingEnd,
    InvalidMetadata(Seq<char>),
    MissingDeck,
    Io,
}

impl View for ParseError {
    type V = ParseFailure;

    open spec fn view(&self) -> ParseFailure {
        match self {
            ParseError::InvalidStateChange(n) => ParseFailure::InvalidStateChange(*n as int),
            ParseError::UnexpectedParsingEnd => ParseFailure::UnexpectedParsingEnd,
            ParseError::InvalidMetadata(d) => ParseFailure::InvalidMetadata(d@),
            ParseError::MissingDeck => ParseFailure::MissingDeck,
            ParseError::IOError(_) => ParseFailure::Io,
        }
    }
}

/// Why the list of documents to synchronise could not be loaded.
#[derive(Debug)]
pub enum AnkiSyncConfigError {
    /// The named environment variable is not set.
    EnvVarMissing(String),
    /// The configuration file could not be read.
    ConfigFileError(std::io::Error),
}

} // verus!

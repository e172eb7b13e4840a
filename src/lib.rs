//! Turns a line-oriented Markdown dialect into flashcard records.
//!
//! A document opens with a fenced metadata block naming its deck, then lists
//! question/answer pairs. The parser is a state machine over classified lines;
//! its behaviour is modelled by the spec functions in `parser` and proved
//! against them.
pub mod error;
pub mod handler;
pub mod laws;
pub mod note;
pub mod parser;
pub mod state;
pub mod text;

pub use error::{AnkiSyncConfigError, ParseError, ParseFailure};
pub use state::ParseState;
pub use handler::AnkiMarkdownHandler;
pub use note::{Deck, Model, NoteView, ParsedNote};
pub use parser::{LineEvent, ParseEventType, Parser, ScratchView};

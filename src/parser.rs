use vstd::prelude::*;

use crate::error::{ParseError, ParseFailure};
use crate::note::{html_of, notes_view, render, Deck, Model, NoteView, ParsedNote};
use crate::state::ParseState;
use crate::text::{lemma_first_colon_split, metadata_entry, split_at_colon, strip_prefix, trim, trimmed};

verus! {

/// The line that opens and closes the metadata block.
pub const METADATA_DELIM: &'static str = "---";

/// The one metadata key that is understood.
pub const DECK: &'static str = "deck";

/// What a single line of a document means, before any state is consulted.
pub enum LineEvent {
    MetadataDelimiter,
    QuestionStart(Seq<char>),
    AnswerStart(Seq<char>),
    Text(Seq<char>),
    Empty,
}

/// A classified line; the payloads borrow from the line itself.
pub enum ParseEventType<'a> {
    MetadataDelimiter,
    QuestionStart(&'a str),
    AnswerStart(&'a str),
    Text(&'a str),
    Empty,
}

impl<'a> View for ParseEventType<'a> {
    type V = LineEvent;

    open spec fn view(&self) -> LineEvent {
        match self {
            ParseEventType::MetadataDelimiter => LineEvent::MetadataDelimiter,
            ParseEventType::QuestionStart(s) => LineEvent::QuestionStart(s@),
            ParseEventType::AnswerStart(s) => LineEvent::AnswerStart(s@),
            ParseEventType::Text(s) => LineEvent::Text(s@),
            ParseEventType::Empty => LineEvent::Empty,
        }
    }
}

/// Classification of a line: fence first, then the question prefix, then the
/// answer prefix, then emptiness, else plain text. Prefixes are stripped by
/// whole characters.
pub open spec fn classify(line: Seq<char>, q: Seq<char>, a: Seq<char>) -> LineEvent {
    if line == METADATA_DELIM@ {
        LineEvent::MetadataDelimiter
    } else if q.is_prefix_of(line) {
        LineEvent::QuestionStart(line.skip(q.len() as int))
    } else if a.is_prefix_of(line) {
        LineEvent::AnswerStart(line.skip(a.len() as int))
    } else if line.len() == 0 {
        LineEvent::Empty
    } else {
        LineEvent::Text(line)
    }
}

/// The model of a parser's working state within one document.
pub struct ScratchView {
    pub state: ParseState,
    pub deck: Option<Seq<char>>,
    pub question: Seq<char>,
    pub answer: Seq<char>,
    pub notes: Seq<NoteView>,
    pub line_num: int,
}

pub open spec fn fresh_scratch() -> ScratchView {
    ScratchView {
        state: ParseState::Start,
        deck: None,
        question: Seq::empty(),
        answer: Seq::empty(),
        notes: Seq::empty(),
        line_num: 0,
    }
}

/// A body line as it is accumulated: followed by a newline.
pub open spec fn line_text(s: Seq<char>) -> Seq<char> {
    s.push('\n')
}

pub open spec fn unparsable_message(line: Seq<char>) -> Seq<char> {
    "Unable to parse line: "@ + line
}

pub open spec fn wrong_key_message(line: Seq<char>) -> Seq<char> {
    "Expecting 'deck' keyword, found: "@ + line
}

/// Note assembly: needs a deck; emits the rendered note and clears both bodies.
pub open spec fn assemble(m: ScratchView) -> Result<ScratchView, ParseFailure> {
    match m.deck {
        Some(d) => Ok(
            ScratchView {
                question: Seq::empty(),
                answer: Seq::empty(),
                notes: m.notes.push(
                    NoteView {
                        deck: d,
                        model: Model::Basic,
                        question: html_of(m.question),
                        answer: html_of(m.answer),
                    },
                ),
                ..m
            },
        ),
        None => Err(ParseFailure::MissingDeck),
    }
}

/// The transition table: what one event does in the current state.
pub open spec fn transition(m: ScratchView, ev: LineEvent) -> Result<ScratchView, ParseFailure> {
    let bad = Err(ParseFailure::InvalidStateChange(m.line_num));
    match ev {
        LineEvent::MetadataDelimiter => match m.state {
            ParseState::Start | ParseState::InMetadata => Ok(
                ScratchView { state: m.state.succ(), ..m },
            ),
            _ => bad,
        },
        LineEvent::QuestionStart(rest) => match m.state {
            ParseState::ExpectingQuestion => Ok(
                ScratchView {
                    state: ParseState::InQuestion,
                    question: m.question + line_text(rest),
                    ..m
                },
            ),
            ParseState::InAnswer => match assemble(m) {
                Ok(n) => Ok(
                    ScratchView {
                        state: ParseState::InQuestion,
                        question: n.question + line_text(rest),
                        ..n
                    },
                ),
                Err(e) => Err(e),
            },
            _ => bad,
        },
        LineEvent::AnswerStart(rest) => match m.state {
            ParseState::InQuestion => Ok(
                ScratchView { state: ParseState::InAnswer, answer: m.answer + line_text(rest), ..m },
            ),
            _ => bad,
        },
        LineEvent::Text(t) => match m.state {
            ParseState::InQuestion => Ok(
                ScratchView { question: m.question + line_text(t), ..m },
            ),
            ParseState::InAnswer => Ok(ScratchView { answer: m.answer + line_text(t), ..m }),
            ParseState::InMetadata => match metadata_entry(t) {
                None => Err(ParseFailure::InvalidMetadata(unparsable_message(t))),
                Some((k, v)) => if k == DECK@ {
                    Ok(ScratchView { deck: Some(trimmed(v)), ..m })
                } else {
                    Err(ParseFailure::InvalidMetadata(wrong_key_message(t)))
                },
            },
            _ => bad,
        },
        LineEvent::Empty => match m.state {
            ParseState::InQuestion => Ok(ScratchView { question: m.question.push('\n'), ..m }),
            ParseState::InAnswer => Ok(ScratchView { answer: m.answer.push('\n'), ..m }),
            _ => Ok(m),
        },
    }
}

/// One input line: classify, transition, and count the line.
pub open spec fn step(m: ScratchView, line: Seq<char>, q: Seq<char>, a: Seq<char>) -> Result<
    ScratchView,
    ParseFailure,
> {
    match transition(m, classify(line, q, a)) {
        Ok(n) => Ok(ScratchView { line_num: m.line_num + 1, ..n }),
        Err(e) => Err(e),
    }
}

/// Feeds lines in order, stopping at the first failure.
pub open spec fn run(m: ScratchView, lines: Seq<Seq<char>>, q: Seq<char>, a: Seq<char>) -> Result<
    ScratchView,
    ParseFailure,
>
    decreases lines.len(),
{
    if lines.len() == 0 {
        Ok(m)
    } else {
        match run(m, lines.drop_last(), q, a) {
            Ok(n) => step(n, lines.last(), q, a),
            Err(e) => Err(e),
        }
    }
}

/// End of input: legal only inside an answer; emits the last note, returns
/// every note of the document and leaves a state ready for the next one.
pub open spec fn finish(m: ScratchView) -> Result<(Seq<NoteView>, ScratchView), ParseFailure> {
    if m.state != ParseState::InAnswer {
        Err(ParseFailure::UnexpectedParsingEnd)
    } else {
        match assemble(m) {
            Ok(n) => Ok(
                (n.notes, ScratchView { state: ParseState::Start, deck: None, notes: Seq::empty(), ..n }),
            ),
            Err(e) => Err(e),
        }
    }
}

/// A whole document: every line, then the end of input.
pub open spec fn parse_document(
    m: ScratchView,
    lines: Seq<Seq<char>>,
    q: Seq<char>,
    a: Seq<char>,
) -> Result<Seq<NoteView>, ParseFailure> {
    match run(m, lines, q, a) {
        Ok(n) => match finish(n) {
            Ok((notes, _)) => Ok(notes),
            Err(e) => Err(e),
        },
        Err(e) => Err(e),
    }
}

/// Relates the state after a call to the state before and the modelled outcome.
pub open spec fn outcome(
    before: ScratchView,
    after: ScratchView,
    r: Result<(), ParseError>,
    expect: Result<ScratchView, ParseFailure>,
) -> bool {
    match expect {
        Ok(m) => r is Ok && after == m,
        Err(e) => (r matches Err(x) && x@ == e) && after == before,
    }
}

/// The line-driven state machine for one document at a time.
pub struct Parser {
    state: ParseState,
    question_token: String,
    answer_token: String,
    deck: Option<Deck>,
    question: String,
    answer: String,
    parsed: Vec<ParsedNote>,
    line_num: u128,
}

impl View for Parser {
    type V = ScratchView;

    closed spec fn view(&self) -> ScratchView {
        ScratchView {
            state: self.state,
            deck: match self.deck {
                Some(d) => Some(d@),
                None => None,
            },
            question: self.question@,
            answer: self.answer@,
            notes: notes_view(self.parsed@),
            line_num: self.line_num as int,
        }
    }
}

/// Whether a string is exactly the given literal.
fn is_exactly(s: &str, lit: &str) -> (r: bool)
    ensures
        r == (s@ == lit@),
{
    match strip_prefix(s, lit) {
        Some(rest) => {
            if rest.is_empty() {
                assert(s@ =~= lit@);
                true
            } else {
                false
            }
        },
        None => {
            assert(lit@.is_prefix_of(lit@));
            false
        },
    }
}

impl Parser {
    pub closed spec fn question_token(&self) -> Seq<char> {
        self.question_token@
    }

    pub closed spec fn answer_token(&self) -> Seq<char> {
        self.answer_token@
    }

    pub open spec fn same_tokens(&self, other: &Parser) -> bool {
        self.question_token() == other.question_token() && self.answer_token()
            == other.answer_token()
    }

    pub fn new(question_token: &str, answer_token: &str) -> (r: Parser)
        ensures
            r@ == fresh_scratch(),
            r.question_token() == question_token@,
            r.answer_token() == answer_token@,
    {
        let r = Parser {
            state: ParseState::Start,
            question_token: question_token.to_owned(),
            answer_token: answer_token.to_owned(),
            deck: None,
            question: String::new(),
            answer: String::new(),
            parsed: Vec::new(),
            line_num: 0,
        };
        assert(notes_view(r.parsed@) =~= Seq::empty());
        r
    }

    /// Classifies one line against the question and answer prefixes.
    pub fn parse_event_type<'a>(event: &'a str, question_token: &str, answer_token: &str) -> (r:
        ParseEventType<'a>)
        ensures
            r@ == classify(event@, question_token@, answer_token@),
    {
        if is_exactly(event, METADATA_DELIM) {
            ParseEventType::MetadataDelimiter
        } else {
            match strip_prefix(event, question_token) {
                Some(rest) => ParseEventType::QuestionStart(rest),
                None => match strip_prefix(event, answer_token) {
                    Some(rest) => ParseEventType::AnswerStart(rest),
                    None => {
                        if event.is_empty() {
                            ParseEventType::Empty
                        } else {
                            ParseEventType::Text(event)
                        }
                    },
                },
            }
        }
    }

    /// Appends a body line, followed by a newline, to a buffer.
    fn push_line(buf: &mut String, line: &str)
        ensures
            final(buf)@ == line_text(old(buf)@ + line@),
    {
        buf.append(line);
        buf.append("\n");
        proof {
            reveal_strlit("\n");
            assert(final(buf)@ =~= line_text(old(buf)@ + line@));
        }
    }

    /// Bundles the deck and the rendered bodies into a note and clears the bodies.
    fn finalize_note(&mut self) -> (r: Result<(), ParseError>)
        ensures
            outcome(old(self)@, final(self)@, r, assemble(old(self)@)),
            final(self).same_tokens(old(self)),
    {
        match &self.deck {
            None => Err(ParseError::MissingDeck),
            Some(d) => {
                let deck = Deck::new(d.name().to_owned());
                let question = render(self.question.as_str());
                let answer = render(self.answer.as_str());
                let note = ParsedNote::new(deck, question, answer);
                self.parsed.push(note);
                self.question = String::new();
                self.answer = String::new();
                assert(notes_view(self.parsed@) =~= notes_view(old(self).parsed@).push(note@));
                assert(assemble(old(self)@) == Ok::<ScratchView, ParseFailure>(self@));
                Ok(())
            },
        }
    }

    pub fn handle_metadata_delim(&mut self) -> (r: Result<(), ParseError>)
        ensures
            outcome(old(self)@, final(self)@, r, transition(old(self)@, LineEvent::MetadataDelimiter)),
            final(self).same_tokens(old(self)),
    {
        match self.state {
            ParseState::Start | ParseState::InMetadata => {
                self.state = self.state.next();
                Ok(())
            },
            _ => Err(ParseError::InvalidStateChange(self.line_num)),
        }
    }

    pub fn handle_question_start(&mut self, event: &str) -> (r: Result<(), ParseError>)
        ensures
            outcome(old(self)@, final(self)@, r, transition(old(self)@, LineEvent::QuestionStart(event@))),
            final(self).same_tokens(old(self)),
    {
        match self.state {
            ParseState::ExpectingQuestion => {
                Self::push_line(&mut self.question, event);
                self.state = self.state.next();
                Ok(())
            },
            ParseState::InAnswer => {
                match self.finalize_note() {
                    Err(e) => Err(e),
                    Ok(()) => {
                        Self::push_line(&mut self.question, event);
                        self.state = self.state.next();
                        Ok(())
                    },
                }
            },
            _ => Err(ParseError::InvalidStateChange(self.line_num)),
        }
    }

    pub fn handle_answer_start(&mut self, event: &str) -> (r: Result<(), ParseError>)
        ensures
            outcome(old(self)@, final(self)@, r, transition(old(self)@, LineEvent::AnswerStart(event@))),
            final(self).same_tokens(old(self)),
    {
        match self.state {
            ParseState::InQuestion => {
                Self::push_line(&mut self.answer, event);
                self.state = self.state.next();
                Ok(())
            },
            _ => Err(ParseError::InvalidStateChange(self.line_num)),
        }
    }

    pub fn handle_text(&mut self, event: &str) -> (r: Result<(), ParseError>)
        ensures
            outcome(old(self)@, final(self)@, r, transition(old(self)@, LineEvent::Text(event@))),
            final(self).same_tokens(old(self)),
    {
        match self.state {
            ParseState::InQuestion => {
                Self::push_line(&mut self.question, event);
                Ok(())
            },
            ParseState::InAnswer => {
                Self::push_line(&mut self.answer, event);
                Ok(())
            },
            ParseState::InMetadata => {
                match split_at_colon(event) {
                    None => {
                        let mut msg = "Unable to parse line: ".to_owned();
                        msg.append(event);
                        Err(ParseError::InvalidMetadata(msg))
                    },
                    Some((key, value)) => {
                        proof {
                            lemma_first_colon_split(event@, key@, value@);
                        }
                        if is_exactly(key, DECK) {
                            self.deck = Some(Deck::new(trim(value).to_owned()));
                            Ok(())
                        } else {
                            let mut msg = "Expecting 'deck' keyword, found: ".to_owned();
                            msg.append(event);
                            Err(ParseError::InvalidMetadata(msg))
                        }
                    },
                }
            },
            _ => Err(ParseError::InvalidStateChange(self.line_num)),
        }
    }

    pub fn handle_empty(&mut self) -> (r: Result<(), ParseError>)
        ensures
            outcome(old(self)@, final(self)@, r, transition(old(self)@, LineEvent::Empty)),
            final(self).same_tokens(old(self)),
    {
        match self.state {
            ParseState::InQuestion => {
                self.question.append("\n");
                proof {
                    reveal_strlit("\n");
                    assert(self.question@ =~= old(self).question@.push('\n'));
                }
            },
            ParseState::InAnswer => {
                self.answer.append("\n");
                proof {
                    reveal_strlit("\n");
                    assert(self.answer@ =~= old(self).answer@.push('\n'));
                }
            },
            _ => {},
        }
        Ok(())
    }

    /// Applies one classified line to the state.
    pub fn parse(&mut self, event_type: ParseEventType) -> (r: Result<(), ParseError>)
        ensures
            outcome(old(self)@, final(self)@, r, transition(old(self)@, event_type@)),
            final(self).same_tokens(old(self)),
    {
        match event_type {
            ParseEventType::MetadataDelimiter => self.handle_metadata_delim(),
            ParseEventType::QuestionStart(event) => self.handle_question_start(event),
            ParseEventType::AnswerStart(event) => self.handle_answer_start(event),
            ParseEventType::Text(event) => self.handle_text(event),
            ParseEventType::Empty => self.handle_empty(),
        }
    }

    /// Consumes one line of the document; the line counter advances whatever the outcome.
    pub fn handle_event(&mut self, event: &str) -> (r: Result<(), ParseError>)
        requires
            old(self)@.line_num < u128::MAX,
        ensures
            final(self).same_tokens(old(self)),
            match step(old(self)@, event@, old(self).question_token(), old(self).answer_token()) {
                Ok(m) => r is Ok && final(self)@ == m,
                Err(e) => (r matches Err(x) && x@ == e) && final(self)@ == (ScratchView {
                    line_num: old(self)@.line_num + 1,
                    ..old(self)@
                }),
            },
    {
        let event_type = Parser::parse_event_type(
            event,
            self.question_token.as_str(),
            self.answer_token.as_str(),
        );
        let result = self.parse(event_type);
        self.line_num = self.line_num + 1;
        result
    }

    /// Ends the document: emits the last note and hands back every note of it.
    pub fn finalize(&mut self) -> (r: Result<Vec<ParsedNote>, ParseError>)
        ensures
            final(self).same_tokens(old(self)),
            match finish(old(self)@) {
                Ok((notes, m)) => (r matches Ok(v) && notes_view(v@) == notes) && final(self)@ == m,
                Err(e) => (r matches Err(x) && x@ == e) && final(self)@ == old(self)@,
            },
    {
        match self.state {
            ParseState::InAnswer => {
                match self.finalize_note() {
                    Err(e) => {
                        return Err(e);
                    },
                    Ok(()) => {},
                }
            },
            _ => {
                return Err(ParseError::UnexpectedParsingEnd);
            },
        }
        match self.state.reset() {
            Ok(s) => {
                self.state = s;
            },
            Err(e) => {
                return Err(e);
            },
        }
        self.deck = None;
        let mut results: Vec<ParsedNote> = Vec::new();
        std::mem::swap(&mut results, &mut self.parsed);
        assert(notes_view(self.parsed@) =~= Seq::empty());
        Ok(results)
    }
}

} // verus!

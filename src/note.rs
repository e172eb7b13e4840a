use vstd::prelude::*;

verus! {

/// What `markdown::to_html` makes of a text: it depends on the text alone.
pub uninterp spec fn html_of(text: Seq<char>) -> Seq<char>;

/// Relies on `markdown::to_html` (CommonMark defaults, which never fail) to
/// render an accumulated question or answer body.
#[verifier::external_body]
pub(crate) fn render(text: &str) -> (r: String)
    ensures
        r@ == html_of(text@),
{
    markdown::to_html(text)
}

/// The kinds of note a flashcard store knows; only the basic two-sided one is made.
#[derive(Clone, Copy, Debug, PartialEq, Eq, Structural)]
pub enum Model {
    Basic,
}

impl Model {
    pub fn to_str(&self) -> (r: &'static str)
        ensures
            r@ == "Basic"@,
    {
        match self {
            Model::Basic => "Basic",
        }
    }
}

/// The collection a note is filed under.
#[derive(Clone, Debug)]
pub struct Deck(String);

impl View for Deck {
    type V = Seq<char>;

    closed spec fn view(&self) -> Seq<char> {
        self.0@
    }
}

impl Deck {
    pub(crate) fn new(name: String) -> (r: Deck)
        ensures
            r@ == name@,
    {
        Deck(name)
    }

    pub fn name(&self) -> (r: &str)
        ensures
            r@ == self@,
    {
        self.0.as_str()
    }
}

/// One finished flashcard: its deck, its kind and its rendered sides.
#[derive(Clone, Debug)]
pub struct ParsedNote {
    deck: Deck,
    model: Model,
    question: String,
    answer: String,
}

/// The mathematical model of a `ParsedNote`.
pub struct NoteView {
    pub deck: Seq<char>,
    pub model: Model,
    pub question: Seq<char>,
    pub answer: Seq<char>,
}

impl View for ParsedNote {
    type V = NoteView;

    closed spec fn view(&self) -> NoteView {
        NoteView {
            deck: self.deck@,
            model: self.model,
            question: self.question@,
            answer: self.answer@,
        }
    }
}

impl ParsedNote {
    /// A basic note; only note assembly makes one.
    pub(crate) fn new(deck: Deck, question: String, answer: String) -> (r: ParsedNote)
        ensures
            r@ == (NoteView { deck: deck@, model: Model::Basic, question: question@, answer: answer@ }),
    {
        ParsedNote { deck, model: Model::Basic, question, answer }
    }

    pub fn deck(&self) -> (r: &str)
        ensures
            r@ == self@.deck,
    {
        self.deck.name()
    }

    pub fn model(&self) -> (r: Model)
        ensures
            r == self@.model,
    {
        self.model
    }

    pub fn question(&self) -> (r: &str)
        ensures
            r@ == self@.question,
    {
        self.question.as_str()
    }

    pub fn answer(&self) -> (r: &str)
        ensures
            r@ == self@.answer,
    {
        self.answer.as_str()
    }
}

/// The models of a list of notes.
pub open spec fn notes_view(v: Seq<ParsedNote>) -> Seq<NoteView> {
    v.map_values(|n: ParsedNote| n@)
}

} // verus!

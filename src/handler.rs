use vstd::prelude::*;

use crate::error::{ParseError, ParseFailure};
use crate::note::{notes_view, ParsedNote};
use crate::parser::{finish, fresh_scratch, parse_document, run, step, Parser, ScratchView};

verus! {

/// The models of a document's lines.
pub open spec fn lines_view(lines: Seq<String>) -> Seq<Seq<char>> {
    lines.map_values(|s: String| s@)
}

/// One more line extends a run by one step.
pub proof fn lemma_run_push(m: ScratchView, lines: Seq<Seq<char>>, q: Seq<char>, a: Seq<char>, i: int)
    requires
        0 <= i < lines.len(),
    ensures
        run(m, lines.take(i + 1), q, a) == match run(m, lines.take(i), q, a) {
            Ok(n) => step(n, lines[i], q, a),
            Err(e) => Err(e),
        },
{
    assert(lines.take(i + 1).drop_last() =~= lines.take(i));
}

/// Once a run has failed, the lines after the failure change nothing.
pub proof fn lemma_run_stops(m: ScratchView, lines: Seq<Seq<char>>, q: Seq<char>, a: Seq<char>, k: int)
    requires
        0 <= k <= lines.len(),
        run(m, lines.take(k), q, a) is Err,
    ensures
        run(m, lines, q, a) == run(m, lines.take(k), q, a),
    decreases lines.len() - k,
{
    if k < lines.len() {
        lemma_run_push(m, lines, q, a, k);
        lemma_run_stops(m, lines, q, a, k + 1);
    } else {
        assert(lines.take(k) =~= lines);
    }
}

/// Turns whole documents into notes, with configurable question and answer prefixes.
pub struct AnkiMarkdownHandler {
    parser: Parser,
}

impl AnkiMarkdownHandler {
    /// The parser's working state.
    pub closed spec fn scratch(&self) -> ScratchView {
        self.parser@
    }

    pub closed spec fn question_token(&self) -> Seq<char> {
        self.parser.question_token()
    }

    pub closed spec fn answer_token(&self) -> Seq<char> {
        self.parser.answer_token()
    }

    pub open spec fn same_tokens(&self, other: &AnkiMarkdownHandler) -> bool {
        self.question_token() == other.question_token() && self.answer_token()
            == other.answer_token()
    }

    pub fn new(question_token: &str, answer_token: &str) -> (r: AnkiMarkdownHandler)
        ensures
            r.scratch() == fresh_scratch(),
            r.question_token() == question_token@,
            r.answer_token() == answer_token@,
    {
        AnkiMarkdownHandler { parser: Parser::new(question_token, answer_token) }
    }

    /// A handler for the usual `Q: ` and `A: ` prefixes.
    pub fn default() -> (r: AnkiMarkdownHandler)
        ensures
            r.scratch() == fresh_scratch(),
            r.question_token() == "Q: "@,
            r.answer_token() == "A: "@,
    {
        AnkiMarkdownHandler::new("Q: ", "A: ")
    }

    /// Feeds one line of a document, for callers that read it line by line.
    pub fn handle_line(&mut self, line: &str) -> (r: Result<(), ParseError>)
        requires
            old(self).scratch().line_num < u128::MAX,
        ensures
            final(self).same_tokens(old(self)),
            match step(old(self).scratch(), line@, old(self).question_token(), old(self).answer_token()) {
                Ok(m) => r is Ok && final(self).scratch() == m,
                Err(e) => (r matches Err(x) && x@ == e) && final(self).scratch() == (ScratchView {
                    line_num: old(self).scratch().line_num + 1,
                    ..old(self).scratch()
                }),
            },
    {
        self.parser.handle_event(line)
    }

    /// Ends a document fed line by line: its notes, or why it is incomplete.
    pub fn finish(&mut self) -> (r: Result<Vec<ParsedNote>, ParseError>)
        ensures
            final(self).same_tokens(old(self)),
            match finish(old(self).scratch()) {
                Ok((notes, m)) => (r matches Ok(v) && notes_view(v@) == notes) && final(self).scratch() == m,
                Err(e) => (r matches Err(x) && x@ == e) && final(self).scratch() == old(self).scratch(),
            },
    {
        self.parser.finalize()
    }

    /// Parses a document given as its lines: all of its notes, or the first failure.
    pub fn parse_lines(&mut self, lines: &Vec<String>) -> (r: Result<Vec<ParsedNote>, ParseError>)
        requires
            old(self).scratch().line_num + lines@.len() <= u128::MAX,
        ensures
            final(self).same_tokens(old(self)),
            match parse_document(
                old(self).scratch(),
                lines_view(lines@),
                old(self).question_token(),
                old(self).answer_token(),
            ) {
                Ok(notes) => r matches Ok(v) && notes_view(v@) == notes,
                Err(e) => r matches Err(x) && x@ == e,
            },
    {
        let ghost m0 = self.scratch();
        let ghost q = self.question_token();
        let ghost a = self.answer_token();
        let ghost all = lines_view(lines@);
        let mut i: usize = 0;
        while i < lines.len()
            invariant
                0 <= i <= lines@.len(),
                all == lines_view(lines@),
                m0 == old(self).scratch(),
                q == old(self).question_token(),
                a == old(self).answer_token(),
                self.question_token() == q,
                self.answer_token() == a,
                run(m0, all.take(i as int), q, a) == Ok::<ScratchView, ParseFailure>(self.scratch()),
                self.scratch().line_num == m0.line_num + i,
                m0.line_num + lines@.len() <= u128::MAX,
            decreases lines@.len() - i,
        {
            proof {
                lemma_run_push(m0, all, q, a, i as int);
            }
            match self.handle_line(lines[i].as_str()) {
                Err(e) => {
                    proof {
                        lemma_run_stops(m0, all, q, a, i + 1);
                    }
                    return Err(e);
                },
                Ok(()) => {},
            }
            i = i + 1;
        }
        proof {
            assert(all.take(i as int) =~= all);
        }
        self.finish()
    }
}

} // verus!

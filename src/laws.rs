//! Properties of whole documents, proved over the parser's model.
use vstd::prelude::*;

use crate::error::ParseFailure;
use crate::handler::lemma_run_push;
use crate::note::{html_of, Model, NoteView};
use crate::parser::{
    classify, fresh_scratch, line_text, parse_document, run, step, unparsable_message,
    LineEvent, ScratchView, DECK, METADATA_DELIM,
};
use crate::state::ParseState;
use crate::text::{metadata_entry, trimmed};

verus! {

/// A line that continues a question or answer body: plain text or blank.
pub open spec fn is_continuation(line: Seq<char>, q: Seq<char>, a: Seq<char>) -> bool {
    classify(line, q, a) is Text || classify(line, q, a) is Empty
}

pub open spec fn all_continuations(rest: Seq<Seq<char>>, q: Seq<char>, a: Seq<char>) -> bool {
    forall|i: int| 0 <= i < rest.len() ==> is_continuation(#[trigger] rest[i], q, a)
}

/// What continuation lines add to a body: each line and a newline.
pub open spec fn conts_text(rest: Seq<Seq<char>>) -> Seq<char>
    decreases rest.len(),
{
    if rest.len() == 0 {
        Seq::empty()
    } else {
        conts_text(rest.drop_last()) + line_text(rest.last())
    }
}

/// The lines of one card: the question block, then the answer block.
pub struct CardLines {
    pub question: Seq<Seq<char>>,
    pub answer: Seq<Seq<char>>,
}

pub open spec fn card_ok(c: CardLines, q: Seq<char>, a: Seq<char>) -> bool {
    &&& c.question.len() >= 1
    &&& classify(c.question[0], q, a) is QuestionStart
    &&& all_continuations(c.question.skip(1), q, a)
    &&& c.answer.len() >= 1
    &&& classify(c.answer[0], q, a) is AnswerStart
    &&& all_continuations(c.answer.skip(1), q, a)
}

pub open spec fn question_text(c: CardLines, q: Seq<char>) -> Seq<char> {
    line_text(c.question[0].skip(q.len() as int)) + conts_text(c.question.skip(1))
}

pub open spec fn answer_text(c: CardLines, a: Seq<char>) -> Seq<char> {
    line_text(c.answer[0].skip(a.len() as int)) + conts_text(c.answer.skip(1))
}

pub open spec fn card_lines(c: CardLines) -> Seq<Seq<char>> {
    c.question + c.answer
}

pub open spec fn cards_lines(cs: Seq<CardLines>) -> Seq<Seq<char>>
    decreases cs.len(),
{
    if cs.len() == 0 {
        Seq::empty()
    } else {
        cards_lines(cs.drop_last()) + card_lines(cs.last())
    }
}

/// The note a card becomes under deck `d`.
pub open spec fn note_of(d: Seq<char>, c: CardLines, q: Seq<char>, a: Seq<char>) -> NoteView {
    NoteView {
        deck: d,
        model: Model::Basic,
        question: html_of(question_text(c, q)),
        answer: html_of(answer_text(c, a)),
    }
}

pub open spec fn notes_of(d: Seq<char>, cs: Seq<CardLines>, q: Seq<char>, a: Seq<char>) -> Seq<
    NoteView,
> {
    cs.map_values(|c: CardLines| note_of(d, c, q, a))
}

/// A metadata line that names the deck.
pub open spec fn is_deck_line(line: Seq<char>, q: Seq<char>, a: Seq<char>) -> bool {
    &&& classify(line, q, a) == LineEvent::Text(line)
    &&& metadata_entry(line) is Some
    &&& metadata_entry(line).unwrap().0 == DECK@
}

/// Every metadata line is blank or names the deck.
pub open spec fn meta_ok(meta: Seq<Seq<char>>, q: Seq<char>, a: Seq<char>) -> bool {
    forall|i: int|
        0 <= i < meta.len() ==> (classify(#[trigger] meta[i], q, a) is Empty || is_deck_line(
            meta[i],
            q,
            a,
        ))
}

/// The deck named last in a metadata block, if any.
pub open spec fn meta_deck(meta: Seq<Seq<char>>, q: Seq<char>, a: Seq<char>) -> Option<Seq<char>>
    decreases meta.len(),
{
    if meta.len() == 0 {
        None
    } else if is_deck_line(meta.last(), q, a) {
        Some(trimmed(metadata_entry(meta.last()).unwrap().1))
    } else {
        meta_deck(meta.drop_last(), q, a)
    }
}

/// A document: the fenced metadata block, then its cards.
pub open spec fn document_lines(meta: Seq<Seq<char>>, cards: Seq<CardLines>) -> Seq<Seq<char>> {
    seq![METADATA_DELIM@] + meta + seq![METADATA_DELIM@] + cards_lines(cards)
}

/// How many lines of a document start a question.
pub open spec fn count_question_starts(lines: Seq<Seq<char>>, q: Seq<char>, a: Seq<char>) -> nat
    decreases lines.len(),
{
    if lines.len() == 0 {
        0
    } else {
        count_question_starts(lines.drop_last(), q, a) + if classify(lines.last(), q, a) is QuestionStart {
            1nat
        } else {
            0nat
        }
    }
}

/// Running two blocks of lines is running the first, then the second from where it left off.
pub proof fn lemma_run_concat(
    m: ScratchView,
    xs: Seq<Seq<char>>,
    ys: Seq<Seq<char>>,
    q: Seq<char>,
    a: Seq<char>,
)
    ensures
        run(m, xs + ys, q, a) == match run(m, xs, q, a) {
            Ok(n) => run(n, ys, q, a),
            Err(e) => Err(e),
        },
    decreases ys.len(),
{
    if ys.len() == 0 {
        assert(xs + ys =~= xs);
    } else {
        lemma_run_concat(m, xs, ys.drop_last(), q, a);
        assert((xs + ys).drop_last() =~= xs + ys.drop_last());
    }
}

pub proof fn lemma_run_single(m: ScratchView, line: Seq<char>, q: Seq<char>, a: Seq<char>)
    ensures
        run(m, seq![line], q, a) == step(m, line, q, a),
{
    assert(seq![line].drop_last() =~= Seq::<Seq<char>>::empty());
    assert(run(m, Seq::<Seq<char>>::empty(), q, a) == Ok::<ScratchView, ParseFailure>(m));
}

pub proof fn lemma_question_body(m: ScratchView, rest: Seq<Seq<char>>, q: Seq<char>, a: Seq<char>)
    requires
        m.state == ParseState::InQuestion,
        all_continuations(rest, q, a),
    ensures
        run(m, rest, q, a) == Ok::<ScratchView, ParseFailure>(
            ScratchView {
                question: m.question + conts_text(rest),
                line_num: m.line_num + rest.len(),
                ..m
            },
        ),
    decreases rest.len(),
{
    if rest.len() == 0 {
        assert(m.question + conts_text(rest) =~= m.question);
    } else {
        let init = rest.drop_last();
        assert forall|i: int| 0 <= i < init.len() implies is_continuation(#[trigger] init[i], q, a) by {
            assert(init[i] == rest[i]);
        }
        lemma_question_body(m, init, q, a);
        let line = rest.last();
        assert(is_continuation(rest[rest.len() - 1], q, a));
        if classify(line, q, a) is Empty {
            assert(line =~= Seq::<char>::empty());
            assert((m.question + conts_text(init)).push('\n') =~= m.question + conts_text(rest));
        } else {
            assert(classify(line, q, a) == LineEvent::Text(line));
        }
        assert(m.question + conts_text(init) + line_text(line) =~= m.question + conts_text(rest));
    }
}

pub proof fn lemma_answer_body(m: ScratchView, rest: Seq<Seq<char>>, q: Seq<char>, a: Seq<char>)
    requires
        m.state == ParseState::InAnswer,
        all_continuations(rest, q, a),
    ensures
        run(m, rest, q, a) == Ok::<ScratchView, ParseFailure>(
            ScratchView {
                answer: m.answer + conts_text(rest),
                line_num: m.line_num + rest.len(),
                ..m
            },
        ),
    decreases rest.len(),
{
    if rest.len() == 0 {
        assert(m.answer + conts_text(rest) =~= m.answer);
    } else {
        let init = rest.drop_last();
        assert forall|i: int| 0 <= i < init.len() implies is_continuation(#[trigger] init[i], q, a) by {
            assert(init[i] == rest[i]);
        }
        lemma_answer_body(m, init, q, a);
        let line = rest.last();
        assert(is_continuation(rest[rest.len() - 1], q, a));
        if classify(line, q, a) is Empty {
            assert(line =~= Seq::<char>::empty());
            assert((m.answer + conts_text(init)).push('\n') =~= m.answer + conts_text(rest));
        } else {
            assert(classify(line, q, a) == LineEvent::Text(line));
        }
        assert(m.answer + conts_text(init) + line_text(line) =~= m.answer + conts_text(rest));
    }
}


pub proof fn lemma_metadata_block(m: ScratchView, meta: Seq<Seq<char>>, q: Seq<char>, a: Seq<char>)
    requires
        m.state == ParseState::InMetadata,
        meta_ok(meta, q, a),
    ensures
        run(m, meta, q, a) == Ok::<ScratchView, ParseFailure>(
            ScratchView {
                deck: match meta_deck(meta, q, a) {
                    Some(d) => Some(d),
                    None => m.deck,
                },
                line_num: m.line_num + meta.len(),
                ..m
            },
        ),
    decreases meta.len(),
{
    if meta.len() > 0 {
        let init = meta.drop_last();
        assert forall|i: int| 0 <= i < init.len() implies (classify(#[trigger] init[i], q, a) is Empty
            || is_deck_line(init[i], q, a)) by {
            assert(init[i] == meta[i]);
        }
        lemma_metadata_block(m, init, q, a);
        assert(classify(meta[meta.len() - 1], q, a) is Empty || is_deck_line(meta[meta.len() - 1], q, a));
    }
}

/// One card, from a state that expects a question (with both bodies empty) or
/// from inside the previous answer (with a deck known).
pub proof fn lemma_card(m: ScratchView, c: CardLines, q: Seq<char>, a: Seq<char>)
    requires
        card_ok(c, q, a),
        (m.state == ParseState::ExpectingQuestion && m.question.len() == 0 && m.answer.len() == 0)
            || (m.state == ParseState::InAnswer && m.deck is Some),
    ensures
        run(m, card_lines(c), q, a) == Ok::<ScratchView, ParseFailure>(
            ScratchView {
                state: ParseState::InAnswer,
                question: question_text(c, q),
                answer: answer_text(c, a),
                notes: if m.state == ParseState::InAnswer {
                    m.notes.push(
                        NoteView {
                            deck: m.deck.unwrap(),
                            model: Model::Basic,
                            question: html_of(m.question),
                            answer: html_of(m.answer),
                        },
                    )
                } else {
                    m.notes
                },
                line_num: m.line_num + card_lines(c).len(),
                ..m
            },
        ),
{
    let q0 = c.question[0];
    let a0 = c.answer[0];
    let qrest = c.question.skip(1);
    let arest = c.answer.skip(1);
    assert(c.question =~= seq![q0] + qrest);
    assert(c.answer =~= seq![a0] + arest);
    lemma_run_concat(m, c.question, c.answer, q, a);
    lemma_run_concat(m, seq![q0], qrest, q, a);
    lemma_run_single(m, q0, q, a);
    let m1 = step(m, q0, q, a)->Ok_0;
    assert(line_text(q0.skip(q.len() as int)) =~= Seq::<char>::empty() + line_text(q0.skip(q.len() as int)));
    assert(m1.state == ParseState::InQuestion);
    lemma_question_body(m1, qrest, q, a);
    let m2 = run(m1, qrest, q, a)->Ok_0;
    assert(m2.question =~= question_text(c, q));
    lemma_run_concat(m2, seq![a0], arest, q, a);
    lemma_run_single(m2, a0, q, a);
    let m3 = step(m2, a0, q, a)->Ok_0;
    assert(line_text(a0.skip(a.len() as int)) =~= Seq::<char>::empty() + line_text(a0.skip(a.len() as int)));
    assert(m3.state == ParseState::InAnswer);
    lemma_answer_body(m3, arest, q, a);
    let m4 = run(m3, arest, q, a)->Ok_0;
    assert(m4.answer =~= answer_text(c, a));
}

/// A card met inside an answer while no deck is known fails on its question line.
pub proof fn lemma_card_without_deck(m: ScratchView, c: CardLines, q: Seq<char>, a: Seq<char>)
    requires
        card_ok(c, q, a),
        m.state == ParseState::InAnswer,
        m.deck is None,
    ensures
        run(m, card_lines(c), q, a) == Err::<ScratchView, ParseFailure>(ParseFailure::MissingDeck),
{
    let q0 = c.question[0];
    assert(c.question =~= seq![q0] + c.question.skip(1));
    lemma_run_concat(m, c.question, c.answer, q, a);
    lemma_run_concat(m, seq![q0], c.question.skip(1), q, a);
    lemma_run_single(m, q0, q, a);
}

/// A run of cards from the end of the metadata block.
pub proof fn lemma_cards(m: ScratchView, cs: Seq<CardLines>, q: Seq<char>, a: Seq<char>)
    requires
        cs.len() >= 1,
        forall|i: int| 0 <= i < cs.len() ==> card_ok(#[trigger] cs[i], q, a),
        m.state == ParseState::ExpectingQuestion,
        m.question.len() == 0,
        m.answer.len() == 0,
    ensures
        m.deck matches Some(d) ==> run(m, cards_lines(cs), q, a) == Ok::<ScratchView, ParseFailure>(
            ScratchView {
                state: ParseState::InAnswer,
                question: question_text(cs.last(), q),
                answer: answer_text(cs.last(), a),
                notes: m.notes + notes_of(d, cs.drop_last(), q, a),
                line_num: m.line_num + cards_lines(cs).len(),
                ..m
            },
        ),
        m.deck is None && cs.len() == 1 ==> run(m, cards_lines(cs), q, a) == Ok::<ScratchView, ParseFailure>(
            ScratchView {
                state: ParseState::InAnswer,
                question: question_text(cs.last(), q),
                answer: answer_text(cs.last(), a),
                line_num: m.line_num + cards_lines(cs).len(),
                ..m
            },
        ),
        m.deck is None && cs.len() > 1 ==> run(m, cards_lines(cs), q, a) == Err::<ScratchView, ParseFailure>(
            ParseFailure::MissingDeck,
        ),
    decreases cs.len(),
{
    let init = cs.drop_last();
    let c = cs.last();
    assert(card_ok(cs[cs.len() - 1], q, a));
    lemma_run_concat(m, cards_lines(init), card_lines(c), q, a);
    if cs.len() == 1 {
        assert(cards_lines(init) =~= Seq::<Seq<char>>::empty());
        assert(run(m, Seq::<Seq<char>>::empty(), q, a) == Ok::<ScratchView, ParseFailure>(m));
        lemma_card(m, c, q, a);
        if m.deck is Some {
            assert(m.notes + notes_of(m.deck.unwrap(), init, q, a) =~= m.notes);
        }
    } else {
        assert forall|i: int| 0 <= i < init.len() implies card_ok(#[trigger] init[i], q, a) by {
            assert(init[i] == cs[i]);
        }
        lemma_cards(m, init, q, a);
        let n = run(m, cards_lines(init), q, a);
        if m.deck is Some {
            let d = m.deck.unwrap();
            lemma_card(n->Ok_0, c, q, a);
            assert(init.last() == init.drop_last().push(init.last()).last());
            assert(notes_of(d, init, q, a) =~= notes_of(d, init.drop_last(), q, a).push(
                note_of(d, init.last(), q, a),
            ));
            assert(m.notes + notes_of(d, init, q, a) =~= (m.notes + notes_of(d, init.drop_last(), q, a)).push(
                note_of(d, init.last(), q, a),
            ));
        } else if init.len() == 1 {
            lemma_card_without_deck(n->Ok_0, c, q, a);
        }
    }
}


pub proof fn lemma_count_concat(xs: Seq<Seq<char>>, ys: Seq<Seq<char>>, q: Seq<char>, a: Seq<char>)
    ensures
        count_question_starts(xs + ys, q, a) == count_question_starts(xs, q, a)
            + count_question_starts(ys, q, a),
    decreases ys.len(),
{
    if ys.len() == 0 {
        assert(xs + ys =~= xs);
    } else {
        lemma_count_concat(xs, ys.drop_last(), q, a);
        assert((xs + ys).drop_last() =~= xs + ys.drop_last());
    }
}

pub proof fn lemma_count_none(xs: Seq<Seq<char>>, q: Seq<char>, a: Seq<char>)
    requires
        forall|i: int| 0 <= i < xs.len() ==> !(classify(#[trigger] xs[i], q, a) is QuestionStart),
    ensures
        count_question_starts(xs, q, a) == 0,
    decreases xs.len(),
{
    if xs.len() > 0 {
        let init = xs.drop_last();
        assert forall|i: int| 0 <= i < init.len() implies !(classify(#[trigger] init[i], q, a) is QuestionStart) by {
            assert(init[i] == xs[i]);
        }
        lemma_count_none(init, q, a);
        assert(!(classify(xs[xs.len() - 1], q, a) is QuestionStart));
    }
}

pub proof fn lemma_count_cards(cs: Seq<CardLines>, q: Seq<char>, a: Seq<char>)
    requires
        forall|i: int| 0 <= i < cs.len() ==> card_ok(#[trigger] cs[i], q, a),
    ensures
        count_question_starts(cards_lines(cs), q, a) == cs.len(),
    decreases cs.len(),
{
    if cs.len() > 0 {
        let init = cs.drop_last();
        let c = cs.last();
        assert(card_ok(cs[cs.len() - 1], q, a));
        assert forall|i: int| 0 <= i < init.len() implies card_ok(#[trigger] init[i], q, a) by {
            assert(init[i] == cs[i]);
        }
        lemma_count_cards(init, q, a);
        lemma_count_concat(cards_lines(init), card_lines(c), q, a);
        let q0 = c.question[0];
        assert(c.question =~= seq![q0] + c.question.skip(1));
        lemma_count_concat(seq![q0] + c.question.skip(1), c.answer, q, a);
        lemma_count_concat(seq![q0], c.question.skip(1), q, a);
        assert(seq![q0].drop_last() =~= Seq::<Seq<char>>::empty());
        assert(count_question_starts(Seq::<Seq<char>>::empty(), q, a) == 0);
        assert(count_question_starts(seq![q0], q, a) == 1);
        assert(card_lines(c) == (seq![q0] + c.question.skip(1)) + c.answer);
        let qrest = c.question.skip(1);
        assert forall|i: int| 0 <= i < qrest.len() implies !(classify(#[trigger] qrest[i], q, a) is QuestionStart) by {
            assert(is_continuation(qrest[i], q, a));
        }
        lemma_count_none(qrest, q, a);
        assert forall|i: int| 0 <= i < c.answer.len() implies !(classify(#[trigger] c.answer[i], q, a) is QuestionStart) by {
            if i > 0 {
                assert(c.answer[i] == c.answer.skip(1)[i - 1]);
                assert(is_continuation(c.answer.skip(1)[i - 1], q, a));
            }
        }
        lemma_count_none(c.answer, q, a);
    }
}

/// A well-formed document (a fenced metadata block of blank or `deck` lines,
/// then one or more question/answer cards, ending inside an answer) parses to
/// one note per card, in order: each carries the deck last named, and the
/// rendering of its question and answer bodies, every line of which (blank
/// ones included) contributes its text and a newline. So the notes are as many
/// as the question lines. Where no metadata line names a deck, the document
/// fails with `MissingDeck` instead.
pub proof fn lemma_well_formed_document(
    meta: Seq<Seq<char>>,
    cards: Seq<CardLines>,
    q: Seq<char>,
    a: Seq<char>,
)
    requires
        meta_ok(meta, q, a),
        cards.len() >= 1,
        forall|i: int| 0 <= i < cards.len() ==> card_ok(#[trigger] cards[i], q, a),
    ensures
        meta_deck(meta, q, a) matches Some(d) ==> parse_document(
            fresh_scratch(),
            document_lines(meta, cards),
            q,
            a,
        ) == Ok::<Seq<NoteView>, ParseFailure>(notes_of(d, cards, q, a)),
        count_question_starts(document_lines(meta, cards), q, a) == cards.len(),
        meta_deck(meta, q, a) is None ==> parse_document(
            fresh_scratch(),
            document_lines(meta, cards),
            q,
            a,
        ) == Err::<Seq<NoteView>, ParseFailure>(ParseFailure::MissingDeck),
{
    let fence = METADATA_DELIM@;
    let m0 = fresh_scratch();
    let header = seq![fence] + meta + seq![fence];
    assert(document_lines(meta, cards) == header + cards_lines(cards));
    lemma_run_concat(m0, header, cards_lines(cards), q, a);
    lemma_run_concat(m0, seq![fence] + meta, seq![fence], q, a);
    lemma_run_concat(m0, seq![fence], meta, q, a);
    lemma_run_single(m0, fence, q, a);
    let m1 = step(m0, fence, q, a)->Ok_0;
    assert(m1.state == ParseState::InMetadata);
    lemma_metadata_block(m1, meta, q, a);
    let m2 = run(m1, meta, q, a)->Ok_0;
    lemma_run_single(m2, fence, q, a);
    let m3 = step(m2, fence, q, a)->Ok_0;
    assert(m3.state == ParseState::ExpectingQuestion);
    assert(m3.deck == meta_deck(meta, q, a));
    lemma_cards(m3, cards, q, a);
    let m4 = run(m3, cards_lines(cards), q, a);
    if let Some(d) = meta_deck(meta, q, a) {
        let last = note_of(d, cards.last(), q, a);
        assert(notes_of(d, cards, q, a) =~= notes_of(d, cards.drop_last(), q, a).push(last));
        assert(m3.notes + notes_of(d, cards.drop_last(), q, a) =~= notes_of(d, cards.drop_last(), q, a));
    }
    lemma_count_concat(header, cards_lines(cards), q, a);
    assert forall|i: int| 0 <= i < header.len() implies !(classify(#[trigger] header[i], q, a) is QuestionStart) by {
        if 0 < i < header.len() - 1 {
            assert(header[i] == meta[i - 1]);
        }
    }
    lemma_count_none(header, q, a);
    lemma_count_cards(cards, q, a);
}

/// Inside the metadata block, a plain line without a colon (so no `key: value`
/// entry) fails with `InvalidMetadata`, whose message ends with the line itself; the
/// error carries nothing of the state.
pub proof fn lemma_malformed_metadata(m: ScratchView, line: Seq<char>, q: Seq<char>, a: Seq<char>)
    requires
        m.state == ParseState::InMetadata,
        classify(line, q, a) is Text,
        !line.contains(':'),
    ensures
        step(m, line, q, a) == Err::<ScratchView, ParseFailure>(
            ParseFailure::InvalidMetadata(unparsable_message(line)),
        ),
        unparsable_message(line).skip(unparsable_message(line).len() - line.len()) == line,
{
    assert(unparsable_message(line).skip(unparsable_message(line).len() - line.len()) =~= line);
}

/// A document whose lines all go through but whose last line starts a
/// question ends in `UnexpectedParsingEnd`: it never reached an answer.
pub proof fn lemma_ends_in_question(m: ScratchView, lines: Seq<Seq<char>>, q: Seq<char>, a: Seq<char>)
    requires
        lines.len() >= 1,
        classify(lines.last(), q, a) is QuestionStart,
        run(m, lines, q, a) is Ok,
    ensures
        parse_document(m, lines, q, a) == Err::<Seq<NoteView>, ParseFailure>(
            ParseFailure::UnexpectedParsingEnd,
        ),
{
}


/// No line before the first question line names a deck.
pub open spec fn no_deck_before_question(lines: Seq<Seq<char>>, q: Seq<char>, a: Seq<char>) -> bool {
    forall|i: int|
        0 <= i < lines.len() && #[trigger] is_deck_line(lines[i], q, a) ==> exists|j: int|
            0 <= j < i && classify(lines[j], q, a) is QuestionStart
}

proof fn lemma_no_deck_prefix(lines: Seq<Seq<char>>, q: Seq<char>, a: Seq<char>, k: int)
    requires
        no_deck_before_question(lines, q, a),
        0 <= k <= lines.len(),
    ensures
        run(fresh_scratch(), lines.take(k), q, a) matches Ok(n) ==> {
            &&& n.deck is None
            &&& n.notes.len() == 0
            &&& (n.state == ParseState::Start || n.state == ParseState::InMetadata) ==> forall|j: int|
                0 <= j < k ==> !(#[trigger] classify(lines[j], q, a) is QuestionStart)
        },
    decreases k,
{
    if k > 0 {
        let m0 = fresh_scratch();
        lemma_no_deck_prefix(lines, q, a, k - 1);
        lemma_run_push(m0, lines, q, a, k - 1);
        if run(m0, lines.take(k - 1), q, a) is Ok {
            let n = run(m0, lines.take(k - 1), q, a)->Ok_0;
            let line = lines[k - 1];
            if n.state == ParseState::InMetadata && is_deck_line(line, q, a) {
                let j = choose|j: int| 0 <= j < k - 1 && classify(lines[j], q, a) is QuestionStart;
                assert(!(classify(lines[j], q, a) is QuestionStart));
            }
            if step(n, line, q, a) is Ok {
                let n2 = step(n, line, q, a)->Ok_0;
                if n2.state == ParseState::Start || n2.state == ParseState::InMetadata {
                    assert forall|j: int| 0 <= j < k implies !(#[trigger] classify(lines[j], q, a) is QuestionStart) by {
                        if j < k - 1 {
                        }
                    }
                }
            }
        }
    }
}

/// A document in which no line before the first question line names a deck
/// never yields notes: it fails, and where every line goes through and it ends
/// inside an answer, the failure is `MissingDeck`.
pub proof fn lemma_no_deck_no_notes(lines: Seq<Seq<char>>, q: Seq<char>, a: Seq<char>)
    requires
        no_deck_before_question(lines, q, a),
    ensures
        parse_document(fresh_scratch(), lines, q, a) is Err,
        (run(fresh_scratch(), lines, q, a) matches Ok(n) && n.state == ParseState::InAnswer)
            ==> parse_document(fresh_scratch(), lines, q, a) == Err::<Seq<NoteView>, ParseFailure>(
            ParseFailure::MissingDeck,
        ),
{
    lemma_no_deck_prefix(lines, q, a, lines.len() as int);
    assert(lines.take(lines.len() as int) =~= lines);
}

} // verus!

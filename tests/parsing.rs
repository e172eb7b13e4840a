use anki_md_sync::parser::Parser;
use anki_md_sync::{AnkiMarkdownHandler, Model, ParseError, ParseEventType, ParseState, ParsedNote};

fn lines(text: &[&str]) -> Vec<String> {
    text.iter().map(|s| s.to_string()).collect()
}

fn parse(text: &[&str]) -> Result<Vec<ParsedNote>, ParseError> {
    AnkiMarkdownHandler::default().parse_lines(&lines(text))
}

#[test]
fn two_cards_under_one_deck() {
    let notes = parse(&[
        "---",
        "deck: Spanish",
        "---",
        "Q: hola",
        "A: hello",
        "Q: adios",
        "A: goodbye",
    ])
    .unwrap();
    assert_eq!(notes.len(), 2);
    assert_eq!(notes[0].deck(), "Spanish");
    assert_eq!(notes[0].question(), markdown::to_html("hola\n"));
    assert_eq!(notes[0].answer(), markdown::to_html("hello\n"));
    assert_eq!(notes[1].deck(), "Spanish");
    assert_eq!(notes[1].question(), markdown::to_html("adios\n"));
    assert_eq!(notes[1].answer(), markdown::to_html("goodbye\n"));
    assert_eq!(notes[0].model(), Model::Basic);
}

#[test]
fn metadata_without_deck_fails() {
    let r = parse(&["---", "---", "Q: q", "A: a"]);
    assert!(matches!(r, Err(ParseError::MissingDeck)));
}

#[test]
fn missing_deck_at_implicit_assembly() {
    let r = parse(&["---", "", "---", "Q: q1", "A: a1", "Q: q2", "A: a2"]);
    assert!(matches!(r, Err(ParseError::MissingDeck)));
}

#[test]
fn answer_before_any_question() {
    let r = parse(&["---", "deck: X", "---", "A: too soon"]);
    assert!(matches!(r, Err(ParseError::InvalidStateChange(3))));
}

#[test]
fn note_count_matches_question_lines() {
    let notes = parse(&[
        "---",
        "",
        "deck: Geo",
        "---",
        "",
        "Q: capital of France?",
        "think",
        "A: Paris",
        "Q: capital of Italy?",
        "A: Rome",
        "more",
        "Q: capital of Spain?",
        "A: Madrid",
    ])
    .unwrap();
    assert_eq!(notes.len(), 3);
    assert_eq!(notes[0].question(), markdown::to_html("capital of France?\nthink\n"));
    assert_eq!(notes[1].answer(), markdown::to_html("Rome\nmore\n"));
    assert_eq!(notes[2].deck(), "Geo");
}

#[test]
fn metadata_without_colon() {
    match parse(&["---", "deck", "---", "Q: q", "A: a"]) {
        Err(ParseError::InvalidMetadata(d)) => assert_eq!(d, "Unable to parse line: deck"),
        _ => panic!("expected InvalidMetadata"),
    }
}

#[test]
fn metadata_with_two_colons() {
    let notes = parse(&["---", "deck: a:b", "---", "Q: q", "A: a"]).unwrap();
    assert_eq!(notes[0].deck(), "a:b");
}

#[test]
fn metadata_with_empty_key() {
    match parse(&["---", ":deck", "---", "Q: q", "A: a"]) {
        Err(ParseError::InvalidMetadata(d)) => assert_eq!(d, "Expecting 'deck' keyword, found: :deck"),
        _ => panic!("expected InvalidMetadata"),
    }
}

#[test]
fn metadata_key_is_not_trimmed() {
    match parse(&["---", "deck : X", "---", "Q: q", "A: a"]) {
        Err(ParseError::InvalidMetadata(d)) => {
            assert_eq!(d, "Expecting 'deck' keyword, found: deck : X")
        }
        _ => panic!("expected InvalidMetadata"),
    }
}

#[test]
fn metadata_with_unknown_key() {
    match parse(&["---", "name: x", "---", "Q: q", "A: a"]) {
        Err(ParseError::InvalidMetadata(d)) => {
            assert_eq!(d, "Expecting 'deck' keyword, found: name: x")
        }
        _ => panic!("expected InvalidMetadata"),
    }
}

#[test]
fn document_ending_in_question() {
    let r = parse(&["---", "deck: X", "---", "Q: unanswered"]);
    assert!(matches!(r, Err(ParseError::UnexpectedParsingEnd)));
}

#[test]
fn document_ending_in_metadata() {
    let r = parse(&["---", "deck: X"]);
    assert!(matches!(r, Err(ParseError::UnexpectedParsingEnd)));
}

#[test]
fn empty_document() {
    assert!(matches!(parse(&[]), Err(ParseError::UnexpectedParsingEnd)));
}

#[test]
fn blank_lines_kept_in_bodies() {
    let notes = parse(&["---", "deck: X", "---", "Q: one", "", "two", "A: three", "", "", "four", ""])
        .unwrap();
    assert_eq!(notes.len(), 1);
    assert_eq!(notes[0].question(), markdown::to_html("one\n\ntwo\n"));
    assert_eq!(notes[0].answer(), markdown::to_html("three\n\n\nfour\n\n"));
}

#[test]
fn rendering_changes_the_text() {
    let notes = parse(&["---", "deck: X", "---", "Q: *bold*", "A: plain"]).unwrap();
    assert_ne!(notes[0].question(), "*bold*\n");
    assert!(notes[0].question().contains("<em>bold</em>"));
}

#[test]
fn deck_value_is_trimmed() {
    let notes = parse(&["---", "deck:   Spanish words  ", "---", "Q: q", "A: a"]).unwrap();
    assert_eq!(notes[0].deck(), "Spanish words");
}

#[test]
fn later_deck_line_wins() {
    let notes = parse(&["---", "deck: one", "deck: two", "---", "Q: q", "A: a"]).unwrap();
    assert_eq!(notes[0].deck(), "two");
}

#[test]
fn fence_inside_answer_is_rejected() {
    let r = parse(&["---", "deck: X", "---", "Q: q", "A: a", "---"]);
    assert!(matches!(r, Err(ParseError::InvalidStateChange(5))));
}

#[test]
fn fence_must_match_exactly() {
    match parse(&["---", "----", "---"]) {
        Err(ParseError::InvalidMetadata(d)) => assert_eq!(d, "Unable to parse line: ----"),
        _ => panic!("expected InvalidMetadata"),
    }
}

#[test]
fn text_before_metadata_is_rejected() {
    let r = parse(&["hello"]);
    assert!(matches!(r, Err(ParseError::InvalidStateChange(0))));
}

#[test]
fn question_inside_question_is_rejected() {
    let r = parse(&["---", "deck: X", "---", "Q: a", "Q: b"]);
    assert!(matches!(r, Err(ParseError::InvalidStateChange(4))));
}

#[test]
fn custom_multibyte_prefixes() {
    let mut h = AnkiMarkdownHandler::new("¿P? ", "¡R! ");
    let notes = h
        .parse_lines(&lines(&["---", "deck: ES", "---", "¿P? qué", "¡R! qué tal"]))
        .unwrap();
    assert_eq!(notes.len(), 1);
    assert_eq!(notes[0].question(), markdown::to_html("qué\n"));
    assert_eq!(notes[0].answer(), markdown::to_html("qué tal\n"));
}

#[test]
fn classifier_precedence() {
    assert!(matches!(
        Parser::parse_event_type("---", "---", "A: "),
        ParseEventType::MetadataDelimiter
    ));
    assert!(matches!(
        Parser::parse_event_type("Q: x", "Q: ", "A: "),
        ParseEventType::QuestionStart("x")
    ));
    assert!(matches!(
        Parser::parse_event_type("A: y", "Q: ", "A: "),
        ParseEventType::AnswerStart("y")
    ));
    assert!(matches!(Parser::parse_event_type("", "Q: ", "A: "), ParseEventType::Empty));
    assert!(matches!(
        Parser::parse_event_type("Q:x", "Q: ", "A: "),
        ParseEventType::Text("Q:x")
    ));
    assert!(matches!(
        Parser::parse_event_type("ñQ hola", "ñQ ", "A: "),
        ParseEventType::QuestionStart("hola")
    ));
}

#[test]
fn line_counter_advances_on_errors() {
    let mut p = Parser::new("Q: ", "A: ");
    assert!(matches!(p.handle_event("oops"), Err(ParseError::InvalidStateChange(0))));
    assert!(matches!(p.handle_event("oops"), Err(ParseError::InvalidStateChange(1))));
}

#[test]
fn handler_is_reusable_after_finalize() {
    let mut h = AnkiMarkdownHandler::default();
    let first = h.parse_lines(&lines(&["---", "deck: A", "---", "Q: 1", "A: 1"])).unwrap();
    assert_eq!(first.len(), 1);
    let second = h.parse_lines(&lines(&["---", "deck: B", "---", "Q: 2", "A: 2"])).unwrap();
    assert_eq!(second.len(), 1);
    assert_eq!(second[0].deck(), "B");
    // the second document sees no deck unless it declares one
    let third = h.parse_lines(&lines(&["---", "---", "Q: 3", "A: 3"]));
    assert!(matches!(third, Err(ParseError::MissingDeck)));
}

#[test]
fn state_transitions() {
    assert_eq!(ParseState::Start.next(), ParseState::InMetadata);
    assert_eq!(ParseState::InMetadata.next(), ParseState::ExpectingQuestion);
    assert_eq!(ParseState::ExpectingQuestion.next(), ParseState::InQuestion);
    assert_eq!(ParseState::InQuestion.next(), ParseState::InAnswer);
    assert_eq!(ParseState::InAnswer.next(), ParseState::InQuestion);
    assert!(matches!(ParseState::InAnswer.reset(), Ok(ParseState::Start)));
    assert!(matches!(ParseState::InQuestion.reset(), Err(ParseError::UnexpectedParsingEnd)));
    assert_eq!(ParseState::ExpectingQuestion.name(), "ExpectingQuestion");
}

#[test]
fn model_name() {
    assert_eq!(Model::Basic.to_str(), "Basic");
}

#[test]
fn deck_value_trims_unicode_white_space() {
    let notes = parse(&["---", "deck:\u{a0}\tFrench\u{3000} ", "---", "Q: q", "A: a"]).unwrap();
    assert_eq!(notes[0].deck(), "French");
}

#[test]
fn empty_deck_value() {
    let notes = parse(&["---", "deck:", "---", "Q: q", "A: a"]).unwrap();
    assert_eq!(notes[0].deck(), "");
}

#[test]
fn line_by_line_matches_whole_document() {
    let mut h = AnkiMarkdownHandler::default();
    for line in ["---", "deck: Spanish", "---", "Q: hola", "A: hello"] {
        h.handle_line(line).unwrap();
    }
    let notes = h.finish().unwrap();
    assert_eq!(notes.len(), 1);
    assert_eq!(notes[0].deck(), "Spanish");
    assert_eq!(notes[0].question(), markdown::to_html("hola\n"));
}

#[test]
fn finish_outside_answer() {
    let mut h = AnkiMarkdownHandler::default();
    h.handle_line("---").unwrap();
    assert!(matches!(h.finish(), Err(ParseError::UnexpectedParsingEnd)));
}

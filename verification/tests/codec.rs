use rust_vocab::action::{valid_definition, valid_word, SEPARATOR};
use rust_vocab::{CodexAction, Confidence, Correctness, VocabParseError};

fn introduce(word: &str, confidence: Confidence, definition: &str) -> CodexAction {
    CodexAction::Introduce(word.to_owned(), confidence, definition.to_owned())
}

fn practice(word: &str, correctness: Correctness) -> CodexAction {
    CodexAction::Practice(word.to_owned(), correctness)
}

#[test]
fn confidence_labels() {
    assert_eq!(Confidence::Known.to_string(), "known");
    assert_eq!(Confidence::PartiallyKnown.to_string(), "partially_known");
    assert_eq!(Confidence::Unknown.to_string(), "unknown");
}

#[test]
fn correctness_labels() {
    assert_eq!(Correctness::Correct.to_string(), "correct");
    assert_eq!(Correctness::PartiallyCorrect.to_string(), "partially_correct");
    assert_eq!(Correctness::Incorrect.to_string(), "incorrect");
}

#[test]
fn confidence_from_str_reads_each_label() {
    assert_eq!(Confidence::from_str("known"), Ok(Confidence::Known));
    assert_eq!(Confidence::from_str("partially_known"), Ok(Confidence::PartiallyKnown));
    assert_eq!(Confidence::from_str("unknown"), Ok(Confidence::Unknown));
}

#[test]
fn confidence_from_str_refuses_other_text() {
    assert_eq!(Confidence::from_str("maybe"), Err(VocabParseError));
    assert_eq!(Confidence::from_str("Known"), Err(VocabParseError));
    assert_eq!(Confidence::from_str("known "), Err(VocabParseError));
    assert_eq!(Confidence::from_str(""), Err(VocabParseError));
    assert_eq!(Confidence::from_str("correct"), Err(VocabParseError));
}

#[test]
fn correctness_from_str_reads_each_label() {
    assert_eq!(Correctness::from_str("correct"), Ok(Correctness::Correct));
    assert_eq!(Correctness::from_str("partially_correct"), Ok(Correctness::PartiallyCorrect));
    assert_eq!(Correctness::from_str("incorrect"), Ok(Correctness::Incorrect));
}

#[test]
fn correctness_from_str_refuses_other_text() {
    assert_eq!(Correctness::from_str("wrong"), Err(VocabParseError));
    assert_eq!(Correctness::from_str("known"), Err(VocabParseError));
    assert_eq!(Correctness::from_str("in correct"), Err(VocabParseError));
}

#[test]
fn weights_of_the_levels() {
    assert_eq!(Confidence::Known.weight(), 900_000_000);
    assert_eq!(Confidence::PartiallyKnown.weight(), 500_000_000);
    assert_eq!(Confidence::Unknown.weight(), 100_000_000);
    assert_eq!(Correctness::Correct.weight(), 1_000_000_000);
    assert_eq!(Correctness::PartiallyCorrect.weight(), 500_000_000);
    assert_eq!(Correctness::Incorrect.weight(), 0);
}

#[test]
fn encode_introduce() {
    let action = introduce("dog", Confidence::Known, "a canine");
    assert_eq!(action.to_string(), "introduce$dog$known$a canine");
}

#[test]
fn encode_practice() {
    let action = practice("dog", Correctness::PartiallyCorrect);
    assert_eq!(action.to_string(), "practice$dog$partially_correct");
}

#[test]
fn decode_introduce() {
    assert_eq!(
        CodexAction::decode("introduce$dog$known$a canine"),
        Ok(introduce("dog", Confidence::Known, "a canine"))
    );
}

#[test]
fn decode_practice() {
    assert_eq!(
        CodexAction::decode("practice$dog$incorrect"),
        Ok(practice("dog", Correctness::Incorrect))
    );
}

#[test]
fn decode_keeps_empty_fields() {
    assert_eq!(
        CodexAction::decode("introduce$$unknown$"),
        Ok(introduce("", Confidence::Unknown, ""))
    );
}

#[test]
fn decode_refuses_wrong_field_count() {
    assert_eq!(CodexAction::decode("introduce$dog$known"), Err(VocabParseError));
    assert_eq!(CodexAction::decode("introduce$dog$known$a$b"), Err(VocabParseError));
    assert_eq!(CodexAction::decode("practice$dog"), Err(VocabParseError));
    assert_eq!(CodexAction::decode("practice$dog$correct$more"), Err(VocabParseError));
    assert_eq!(CodexAction::decode(""), Err(VocabParseError));
}

#[test]
fn decode_refuses_unknown_tag() {
    assert_eq!(CodexAction::decode("forget$dog$known$a canine"), Err(VocabParseError));
    assert_eq!(CodexAction::decode("Introduce$dog$known$a canine"), Err(VocabParseError));
    assert_eq!(CodexAction::decode(" practice$dog$correct"), Err(VocabParseError));
}

#[test]
fn decode_refuses_unknown_level() {
    assert_eq!(CodexAction::decode("introduce$dog$maybe$a canine"), Err(VocabParseError));
    assert_eq!(CodexAction::decode("practice$dog$known"), Err(VocabParseError));
    assert_eq!(CodexAction::decode("introduce$dog$correct$a canine"), Err(VocabParseError));
}

#[test]
fn decode_undoes_encode() {
    let confidences = [Confidence::Known, Confidence::PartiallyKnown, Confidence::Unknown];
    let answers = [Correctness::Correct, Correctness::PartiallyCorrect, Correctness::Incorrect];
    for word in ["dog", "chien", "\u{00e9}t\u{00e9}", "x"] {
        for confidence in confidences {
            for definition in ["a canine", "", "  spaced  ", "caf\u{00e9} au lait"] {
                let action = introduce(word, confidence, definition);
                assert_eq!(CodexAction::decode(&action.to_string()), Ok(action));
            }
        }
        for answer in answers {
            let action = practice(word, answer);
            assert_eq!(CodexAction::decode(&action.to_string()), Ok(action));
        }
    }
}

#[test]
fn word_of_an_action() {
    assert_eq!(introduce("dog", Confidence::Known, "a canine").word(), "dog");
    assert_eq!(practice("cat", Correctness::Correct).word(), "cat");
}

#[test]
fn well_formed_actions() {
    assert!(introduce("dog", Confidence::Known, "a canine").is_well_formed());
    assert!(introduce("dog", Confidence::Known, "").is_well_formed());
    assert!(introduce("dog", Confidence::Known, " a canine ").is_well_formed());
    assert!(introduce("\u{00e9}t\u{00e9}", Confidence::Unknown, "summer\tin French").is_well_formed());
    assert!(practice("dog", Correctness::Correct).is_well_formed());
    assert!(practice("!done", Correctness::Correct).is_well_formed());
}

#[test]
fn a_word_is_not_empty_and_holds_no_separator_or_white_space() {
    for word in ["", "do$g", "$", "hot dog", " dog", "dog\n", "dog\t", "hot\u{00a0}dog"] {
        assert!(!introduce(word, Confidence::Known, "a canine").is_well_formed(), "{:?}", word);
        assert!(!practice(word, Correctness::Correct).is_well_formed(), "{:?}", word);
    }
}

#[test]
fn a_definition_holds_no_separator_or_line_feed() {
    for definition in ["costs 5$", "$", "a\ncanine", "a canine\n", "\n"] {
        assert!(!introduce("dog", Confidence::Known, definition).is_well_formed(), "{:?}", definition);
    }
}

#[test]
fn a_clone_is_equal() {
    let action = introduce("dog", Confidence::Known, "a canine");
    assert_eq!(action.clone(), action);
    let action = practice("dog", Correctness::Incorrect);
    assert_eq!(action.clone(), action);
}

#[test]
fn the_separator_is_a_dollar() {
    assert_eq!(SEPARATOR, '$');
}

#[test]
fn valid_words() {
    assert!(valid_word("dog"));
    assert!(valid_word("d"));
    assert!(valid_word("\u{00e9}t\u{00e9}"));
    assert!(valid_word("!done"));
    assert!(!valid_word(""));
    assert!(!valid_word("a$"));
    assert!(!valid_word("a b"));
    assert!(!valid_word("a\n"));
    assert!(!valid_word("\u{3000}"));
}

#[test]
fn valid_definitions() {
    assert!(valid_definition("a canine"));
    assert!(valid_definition(""));
    assert!(valid_definition("  tabs\tand spaces  "));
    assert!(valid_definition("carriage\rreturn"));
    assert!(!valid_definition("5$"));
    assert!(!valid_definition("two\nlines"));
}

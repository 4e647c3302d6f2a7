use rust_vocab::input::{read_count, read_definition, read_word, FieldIssue, Typed};
use rust_vocab::{Codex, CodexAction, Confidence, Correctness};

fn text(s: &str) -> Typed {
    Typed::Text(s.to_owned())
}

#[test]
fn a_word_is_taken_trimmed() {
    assert_eq!(read_word("dog"), text("dog"));
    assert_eq!(read_word("  dog\n"), text("dog"));
    assert_eq!(read_word("\u{00e9}t\u{00e9}"), text("\u{00e9}t\u{00e9}"));
    assert_eq!(read_word("do!"), text("do!"));
}

#[test]
fn a_word_with_the_separator_is_refused() {
    assert_eq!(read_word("do$g"), Typed::Refused(FieldIssue::Separator));
    assert_eq!(read_word("$"), Typed::Refused(FieldIssue::Separator));
    assert_eq!(read_word("a $"), Typed::Refused(FieldIssue::Separator));
    assert_eq!(read_word("!$"), Typed::Refused(FieldIssue::Separator));
}

#[test]
fn a_word_with_white_space_is_refused() {
    assert_eq!(read_word("hot dog"), Typed::Refused(FieldIssue::Whitespace));
    assert_eq!(read_word("hot\tdog"), Typed::Refused(FieldIssue::Whitespace));
    assert_eq!(read_word(" hot\u{00a0}dog "), Typed::Refused(FieldIssue::Whitespace));
    assert_eq!(read_word("!done now"), Typed::Refused(FieldIssue::Whitespace));
}

#[test]
fn an_empty_word_is_refused() {
    assert_eq!(read_word(""), Typed::Refused(FieldIssue::Empty));
    assert_eq!(read_word("   \n"), Typed::Refused(FieldIssue::Empty));
}

#[test]
fn done_finishes() {
    assert_eq!(read_word("!done"), Typed::Finish);
    assert_eq!(read_word("  !done\n"), Typed::Finish);
    assert_eq!(read_definition("!done"), Typed::Finish);
    assert_eq!(read_definition(" !done "), Typed::Finish);
}

#[test]
fn another_command_is_refused_as_a_word() {
    assert_eq!(read_word("!quit"), Typed::Refused(FieldIssue::UnknownCommand));
    assert_eq!(read_word("!"), Typed::Refused(FieldIssue::UnknownCommand));
    assert_eq!(read_word("!Done"), Typed::Refused(FieldIssue::UnknownCommand));
    assert_eq!(read_word("!done!"), Typed::Refused(FieldIssue::UnknownCommand));
}

#[test]
fn a_definition_is_taken_trimmed() {
    assert_eq!(read_definition("a canine"), text("a canine"));
    assert_eq!(read_definition("  a canine \n"), text("a canine"));
    assert_eq!(read_definition("!quit"), text("!quit"));
    assert_eq!(read_definition("a\tb"), text("a\tb"));
}

#[test]
fn a_definition_with_the_separator_is_refused() {
    assert_eq!(read_definition("costs 5$"), Typed::Refused(FieldIssue::Separator));
    assert_eq!(read_definition("$\n"), Typed::Refused(FieldIssue::Separator));
}

#[test]
fn a_definition_with_a_line_feed_is_refused() {
    assert_eq!(read_definition("a\ncanine"), Typed::Refused(FieldIssue::LineBreak));
    assert_eq!(read_definition("a\n$"), Typed::Refused(FieldIssue::Separator));
}

#[test]
fn an_empty_definition_is_refused() {
    assert_eq!(read_definition(""), Typed::Refused(FieldIssue::Empty));
    assert_eq!(read_definition(" \t \n"), Typed::Refused(FieldIssue::Empty));
}

#[test]
fn a_count_is_a_positive_number() {
    assert_eq!(read_count("5"), Some(5));
    assert_eq!(read_count(" 12\n"), Some(12));
    assert_eq!(read_count("+7"), Some(7));
    assert_eq!(read_count("007"), Some(7));
    assert_eq!(read_count("1"), Some(1));
    assert_eq!(read_count("2147483647"), Some(2147483647));
    assert_eq!(read_count("0000000000002147483647"), Some(2147483647));
}

#[test]
fn a_count_is_not_zero_or_less() {
    assert_eq!(read_count("0"), None);
    assert_eq!(read_count("000"), None);
    assert_eq!(read_count("+0"), None);
    assert_eq!(read_count("-0"), None);
    assert_eq!(read_count("-3"), None);
}

#[test]
fn a_count_fits_an_i32() {
    assert_eq!(read_count("2147483648"), None);
    assert_eq!(read_count("99999999999999999999999999999999"), None);
    assert_eq!(read_count("4294967297"), None);
    assert_eq!(read_count("18446744073709551617"), None);
}

#[test]
fn a_count_is_made_of_digits() {
    assert_eq!(read_count(""), None);
    assert_eq!(read_count("   "), None);
    assert_eq!(read_count("+"), None);
    assert_eq!(read_count("++1"), None);
    assert_eq!(read_count("1+"), None);
    assert_eq!(read_count("five"), None);
    assert_eq!(read_count("5 words"), None);
    assert_eq!(read_count("1 2"), None);
    assert_eq!(read_count("1.5"), None);
    assert_eq!(read_count("0x10"), None);
    assert_eq!(read_count("\u{0661}"), None);
    assert_eq!(read_count("12a"), None);
    assert_eq!(read_count("99999999999999999999999999999999a"), None);
}

#[test]
fn a_count_is_read_as_the_standard_library_reads_an_i32() {
    let samples = [
        "", " ", "0", "1", "+1", "-1", "+", "-", "42", " 42 ", "042", "4 2", "2147483647",
        "2147483648", "+2147483647", "-2147483648", "1e3", "１２", "12\n", "\t9", "9\t", "++9",
        "+-9", "9+", "3000000000", "00000000000000000000001",
    ];
    for s in samples {
        let want = match s.trim().parse::<i32>() {
            Ok(n) if n > 0 => Some(n as usize),
            _ => None,
        };
        assert_eq!(read_count(s), want, "{:?}", s);
    }
}

#[test]
fn what_is_typed_and_accepted_survives_saving_and_loading() {
    let lines = [
        ("  dog \n", " a canine\t\n"),
        ("\u{00e9}t\u{00e9}", "summer,  in French"),
        ("a!b", "!not a command"),
        ("dog", "  a hound  "),
    ];
    let mut codex = Codex::new();
    for (word_line, definition_line) in lines {
        let Typed::Text(word) = read_word(word_line) else { panic!("{:?}", word_line) };
        let Typed::Text(definition) = read_definition(definition_line) else {
            panic!("{:?}", definition_line)
        };
        let action = CodexAction::Introduce(word.clone(), Confidence::PartiallyKnown, definition);
        assert!(action.is_well_formed());
        codex.process_action(action).unwrap();
        codex.process_action(CodexAction::Practice(word, Correctness::Correct)).unwrap();
    }
    let text = codex.save();
    let loaded = Codex::load(&text).unwrap();
    assert_eq!(loaded.save(), text);
    assert_eq!(loaded.num_words(), 3);
    assert_eq!(loaded.num_actions(), 8);
    for word in ["dog", "\u{00e9}t\u{00e9}", "a!b"] {
        assert_eq!(loaded.entry(word), codex.entry(word));
    }
    assert_eq!(loaded.entry("dog").unwrap().definition(), "a hound");
    assert_eq!(loaded.entry("dog").unwrap().knowledge_score(), 625_000_000);
}

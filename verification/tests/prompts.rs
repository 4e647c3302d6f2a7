use rust_vocab::{ChoicePrompt, Confidence, Prompt, ValidatedFieldPrompt};

fn yes_or_no<'a>() -> ChoicePrompt<'a, bool> {
    let mut prompt = ChoicePrompt::new("Continue? (y/n)");
    prompt
        .add_choice(vec!["yes", "Yes", "y", "Y"], true)
        .add_choice(vec!["no", "No", "n", "N"], false);
    prompt
}

#[test]
fn choice_prompt_keeps_its_text() {
    let prompt = ChoicePrompt::<bool>::new("Continue? (y/n)");
    assert_eq!(prompt.get_text(), "Continue? (y/n)");
    assert_eq!(yes_or_no().get_text(), "Continue? (y/n)");
}

#[test]
fn choice_prompt_without_choices_answers_nothing() {
    let prompt = ChoicePrompt::<bool>::new("?");
    assert_eq!(prompt.handle_input("y"), None);
    assert_eq!(prompt.handle_input(""), None);
}

#[test]
fn choice_prompt_picks_the_choice_that_was_typed() {
    let prompt = yes_or_no();
    assert_eq!(prompt.handle_input("yes"), Some(true));
    assert_eq!(prompt.handle_input("Y"), Some(true));
    assert_eq!(prompt.handle_input("no"), Some(false));
    assert_eq!(prompt.handle_input("N"), Some(false));
}

#[test]
fn choice_prompt_refuses_what_is_no_choice() {
    let prompt = yes_or_no();
    assert_eq!(prompt.handle_input("maybe"), None);
    assert_eq!(prompt.handle_input("YES"), None);
    assert_eq!(prompt.handle_input("ye"), None);
    assert_eq!(prompt.handle_input("yess"), None);
    assert_eq!(prompt.handle_input("y e s"), None);
    assert_eq!(prompt.handle_input(""), None);
}

#[test]
fn choice_prompt_trims_the_input() {
    let prompt = yes_or_no();
    assert_eq!(prompt.handle_input("  yes\n"), Some(true));
    assert_eq!(prompt.handle_input("\tn \r\n"), Some(false));
    assert_eq!(prompt.handle_input("   "), None);
}

#[test]
fn choice_prompt_takes_the_first_choice_that_fits() {
    let mut prompt = ChoicePrompt::new("Pick");
    prompt
        .add_choice(vec!["a", "both"], 1)
        .add_choice(vec!["b", "both"], 2)
        .add_choice(vec![], 3)
        .add_choice(vec!["a"], 4);
    assert_eq!(prompt.handle_input("a"), Some(1));
    assert_eq!(prompt.handle_input("b"), Some(2));
    assert_eq!(prompt.handle_input("both"), Some(1));
    assert_eq!(prompt.handle_input("c"), None);
}

#[test]
fn choice_prompt_can_offer_the_empty_line() {
    let mut prompt = ChoicePrompt::new("Enter for the default");
    prompt.add_choice(vec![""], Confidence::Unknown).add_choice(vec!["k"], Confidence::Known);
    assert_eq!(prompt.handle_input(""), Some(Confidence::Unknown));
    assert_eq!(prompt.handle_input("  \n"), Some(Confidence::Unknown));
    assert_eq!(prompt.handle_input("k"), Some(Confidence::Known));
}

#[test]
fn add_choice_hands_back_the_prompt() {
    let mut prompt = ChoicePrompt::new("Pick");
    let same = prompt.add_choice(vec!["one"], 1);
    assert_eq!(same.handle_input("one"), Some(1));
    assert_eq!(same.get_text(), "Pick");
    same.add_choice(vec!["two"], 2);
    assert_eq!(prompt.handle_input("two"), Some(2));
}

#[test]
fn validated_prompt_keeps_its_text() {
    let prompt = ValidatedFieldPrompt::new("Type a word", |_: &str| true);
    assert_eq!(prompt.get_text(), "Type a word");
}

#[test]
fn validated_prompt_hands_on_what_the_validator_accepts() {
    let prompt = ValidatedFieldPrompt::new("Type a word", |s: &str| !s.contains('$'));
    assert_eq!(prompt.handle_input("dog"), Some("dog".to_owned()));
    assert_eq!(prompt.handle_input("  dog "), Some("  dog ".to_owned()));
    assert_eq!(prompt.handle_input(""), Some(String::new()));
}

#[test]
fn validated_prompt_drops_what_the_validator_refuses() {
    let prompt = ValidatedFieldPrompt::new("Type a word", |s: &str| !s.contains('$'));
    assert_eq!(prompt.handle_input("do$g"), None);
    let never = ValidatedFieldPrompt::new("?", |_: &str| false);
    assert_eq!(never.handle_input("dog"), None);
}

#[test]
fn validated_prompt_can_use_the_library_to_judge() {
    let prompt = ValidatedFieldPrompt::new("How many words?", |s: &str| {
        rust_vocab::input::read_count(s).is_some()
    });
    assert_eq!(prompt.handle_input("12"), Some("12".to_owned()));
    assert_eq!(prompt.handle_input("0"), None);
    assert_eq!(prompt.handle_input("twelve"), None);
}

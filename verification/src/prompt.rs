//! Prompts: a question put to the user, and what the prompt makes of a line
//! that the user typed in reply.

use vstd::prelude::*;
use crate::text::{equals_chars, to_chars, trim, trim_str};

verus! {

/// A question with an answer of type `T`.
pub trait Prompt<T: Clone> {
    /// The text of the question.
    spec fn text(&self) -> Seq<char>;

    /// Whether the prompt can be given `input`.
    spec fn takes(&self, input: &str) -> bool;

    /// Whether `reply` is what the prompt may make of `input`: an answer, or
    /// nothing if `input` is no answer to the question.
    spec fn answers(&self, input: &str, reply: Option<T>) -> bool;

    /// The text of the question.
    fn get_text(&self) -> (text: &str)
        ensures
            text@ == self.text(),
    ;

    /// What the prompt makes of `input`: an answer, or nothing if `input` is
    /// no answer to the question.
    fn handle_input(&self, input: &str) -> (reply: Option<T>)
        requires
            self.takes(input),
        ensures
            self.answers(input, reply),
    ;
}

/// One choice of a `ChoicePrompt` as a mathematical value: the texts that
/// select it and the answer that it stands for.
pub struct ChoiceView<T> {
    pub options: Seq<Seq<char>>,
    pub result: T,
}

/// The first of `choices` that one can select by typing `input`, if there is
/// one.
pub open spec fn first_offer<T>(choices: Seq<ChoiceView<T>>, input: Seq<char>) -> Option<int>
    decreases choices.len(),
{
    if choices.len() == 0 {
        None
    } else {
        match first_offer(choices.drop_last(), input) {
            Some(i) => Some(i),
            None => if choices.last().options.contains(input) {
                Some(choices.len() - 1)
            } else {
                None
            },
        }
    }
}

/// What `first_offer` finds lies among the choices.
pub proof fn lemma_first_offer_in_range<T>(choices: Seq<ChoiceView<T>>, input: Seq<char>)
    ensures
        first_offer(choices, input) matches Some(i) ==> 0 <= i < choices.len()
            && choices[i].options.contains(input),
    decreases choices.len(),
{
    if choices.len() > 0 {
        lemma_first_offer_in_range(choices.drop_last(), input);
    }
}

/// A question that is answered by picking one of several choices, each of
/// which can be typed in several ways.
pub struct ChoicePrompt<'a, T: Clone> {
    text: &'a str,
    items: Vec<ChoicePromptItem<'a, T>>,
}

struct ChoicePromptItem<'a, T: Clone> {
    options: Vec<&'a str>,
    result: T,
}

impl<'a, T: Clone> ChoicePromptItem<'a, T> {
    spec fn view(&self) -> ChoiceView<T> {
        ChoiceView {
            options: Seq::new(self.options@.len(), |k: int| self.options@[k]@),
            result: self.result,
        }
    }

    /// Whether one of the options is exactly `input`.
    fn offers(&self, input: &Vec<char>) -> (found: bool)
        ensures
            found == self.view().options.contains(input@),
    {
        let mut k: usize = 0;
        while k < self.options.len()
            invariant
                k <= self.options.len(),
                forall|m: int| 0 <= m < k ==> self.view().options[m] != input@,
            decreases self.options.len() - k,
        {
            if equals_chars(self.options[k], input) {
                assert(self.view().options[k as int] == input@);
                return true;
            }
            assert(self.view().options[k as int] != input@);
            k = k + 1;
        }
        false
    }
}

impl<'a, T: Clone> ChoicePrompt<'a, T> {
    /// The choices, in the order in which they were added.
    pub closed spec fn choices(&self) -> Seq<ChoiceView<T>> {
        Seq::new(self.items@.len(), |i: int| self.items@[i].view())
    }

    /// A prompt with the question `text` and no choice yet.
    pub fn new(text: &'a str) -> (prompt: ChoicePrompt<'a, T>)
        ensures
            prompt.text() == text@,
            prompt.choices() == Seq::<ChoiceView<T>>::empty(),
    {
        let prompt = ChoicePrompt { text, items: Vec::new() };
        assert(prompt.choices() =~= Seq::<ChoiceView<T>>::empty());
        prompt
    }

    /// Adds a choice after those that are there: typing any of `options`
    /// selects `result`.
    pub fn add_choice<'b>(&'b mut self, options: Vec<&'a str>, result: T) -> (prompt: &'b mut Self)
        ensures
            prompt.text() == old(self).text(),
            prompt.choices() == old(self).choices().push(
                ChoiceView { options: Seq::new(options@.len(), |k: int| options@[k]@), result },
            ),
            *final(self) == *final(prompt),
    {
        let ghost before = self.choices();
        let item = ChoicePromptItem { options, result };
        let ghost added = item.view();
        self.items.push(item);
        assert(self.choices() =~= before.push(added));
        self
    }
}

impl<'a, T: Clone> Prompt<T> for ChoicePrompt<'a, T> {
    closed spec fn text(&self) -> Seq<char> {
        self.text@
    }

    open spec fn takes(&self, input: &str) -> bool {
        true
    }

    /// The reply is a clone of the answer of the first choice that the
    /// trimmed input selects, and nothing if it selects none.
    open spec fn answers(&self, input: &str, reply: Option<T>) -> bool {
        match reply {
            Some(answer) => first_offer(self.choices(), trim(input@)) matches Some(i) && cloned(
                self.choices()[i].result,
                answer,
            ),
            None => first_offer(self.choices(), trim(input@)) is None,
        }
    }

    fn get_text(&self) -> (text: &str) {
        self.text
    }

    fn handle_input(&self, input: &str) -> (reply: Option<T>) {
        let typed = to_chars(trim_str(input));
        let mut i: usize = 0;
        assert(self.choices().take(0) =~= Seq::<ChoiceView<T>>::empty());
        while i < self.items.len()
            invariant
                i <= self.items.len(),
                typed@ == trim(input@),
                first_offer(self.choices().take(i as int), typed@) is None,
            decreases self.items.len() - i,
        {
            assert(self.choices().take(i + 1).drop_last() =~= self.choices().take(i as int));
            if self.items[i].offers(&typed) {
                proof {
                    assert(self.choices().take(i + 1).last() == self.items@[i as int].view());
                    Self::lemma_first_offer_stays(
                        self.choices().take(i + 1),
                        self.choices(),
                        typed@,
                    );
                }
                return Some(self.items[i].result.clone());
            }
            i = i + 1;
        }
        assert(self.choices().take(self.items@.len() as int) =~= self.choices());
        None
    }
}

impl<'a, T: Clone> ChoicePrompt<'a, T> {
    /// A choice that is the first offer among the first choices is the first
    /// offer among all.
    proof fn lemma_first_offer_stays(
        first: Seq<ChoiceView<T>>,
        all: Seq<ChoiceView<T>>,
        input: Seq<char>,
    )
        requires
            first.len() <= all.len(),
            first == all.take(first.len() as int),
            first_offer(first, input) is Some,
        ensures
            first_offer(all, input) == first_offer(first, input),
        decreases all.len(),
    {
        if first.len() < all.len() {
            assert(all.drop_last().take(first.len() as int) =~= first);
            Self::lemma_first_offer_stays(first, all.drop_last(), input);
        } else {
            assert(first =~= all);
        }
    }
}

/// A question that is answered by a line of text, which a validator accepts or
/// refuses.
pub struct ValidatedFieldPrompt<'a, F> where F: Fn(&str) -> bool {
    text: &'a str,
    validator: F,
}

impl<'a, F> ValidatedFieldPrompt<'a, F> where F: Fn(&str) -> bool {
    /// Whether the validator accepts `input`, seen from outside: whether
    /// `verdict` is what it may say of `input`.
    pub closed spec fn verdict(&self, input: &str, verdict: bool) -> bool {
        call_ensures(self.validator, (input,), verdict)
    }

    /// Whether the validator can be asked about `input`.
    pub closed spec fn validates(&self, input: &str) -> bool {
        call_requires(self.validator, (input,))
    }

    /// A prompt with the question `text`, whose answers `validator` judges.
    pub fn new(text: &'a str, validator: F) -> (prompt: ValidatedFieldPrompt<'a, F>)
        ensures
            prompt.text() == text@,
            forall|input: &str|
                (#[trigger] prompt.validates(input)) == call_requires(validator, (input,)),
            forall|input: &str, verdict: bool|
                (#[trigger] prompt.verdict(input, verdict)) == call_ensures(
                    validator,
                    (input,),
                    verdict,
                ),
    {
        ValidatedFieldPrompt { text, validator }
    }

    /// What the prompt takes and what it answers, said of the validator: it
    /// takes what the validator can be asked about, and its reply is the
    /// input itself if the validator accepts it and nothing if the validator
    /// refuses it.
    pub proof fn lemma_judged_by_validator(&self, input: &str, reply: Option<String>)
        ensures
            self.takes(input) == self.validates(input),
            self.answers(input, reply) == match reply {
                Some(answer) => answer@ == input@ && self.verdict(input, true),
                None => self.verdict(input, false),
            },
    {
    }
}

impl<'a, F> Prompt<String> for ValidatedFieldPrompt<'a, F> where F: Fn(&str) -> bool {
    closed spec fn text(&self) -> Seq<char> {
        self.text@
    }

    open spec fn takes(&self, input: &str) -> bool {
        self.validates(input)
    }

    /// The reply is the input itself if the validator accepts it, and nothing
    /// if the validator refuses it.
    open spec fn answers(&self, input: &str, reply: Option<String>) -> bool {
        match reply {
            Some(answer) => answer@ == input@ && self.verdict(input, true),
            None => self.verdict(input, false),
        }
    }

    fn get_text(&self) -> (text: &str) {
        self.text
    }

    fn handle_input(&self, input: &str) -> (reply: Option<String>) {
        if (self.validator)(input) {
            Some(input.to_owned())
        } else {
            None
        }
    }
}

} // verus!

//! What a line that the user typed means: a word or a definition for a new
//! entry, the wish to finish, or a number of words to practice. Text that
//! would not survive in the log is refused here, where events are made.

use vstd::prelude::*;
use crate::action::{is_definition, is_word, ActionView, SEPARATOR};
use crate::level::{Confidence, Correctness};
use crate::persist::persistable;
use crate::text::{
    contains_char, contains_whitespace, first_char, has_whitespace, lemma_trim, str_eq, to_chars,
    trailing_whitespace, trim, trim_str,
};

verus! {

/// Why a typed text is refused.
#[derive(Clone, Copy, Debug, PartialEq, Eq, Structural)]
pub enum FieldIssue {
    /// It holds the separator `$`.
    Separator,
    /// It is a word and holds white space.
    Whitespace,
    /// It holds a line feed.
    LineBreak,
    /// Nothing is left of it once it is trimmed.
    Empty,
    /// It starts with `!` and is no command.
    UnknownCommand,
}

/// What a typed line means.
#[derive(Debug, PartialEq, Eq)]
pub enum Typed {
    /// The command `!done`: the user wants to finish.
    Finish,
    /// A text that can go into an event: the trimmed line.
    Text(String),
    /// Nothing that can be used.
    Refused(FieldIssue),
}

/// What a typed line means, as a mathematical value.
pub enum TypedView {
    Finish,
    Text(Seq<char>),
    Refused(FieldIssue),
}

impl View for Typed {
    type V = TypedView;

    open spec fn view(&self) -> TypedView {
        match *self {
            Typed::Finish => TypedView::Finish,
            Typed::Text(text) => TypedView::Text(text@),
            Typed::Refused(issue) => TypedView::Refused(issue),
        }
    }
}

impl Clone for Typed {
    fn clone(&self) -> (copy: Self)
        ensures
            copy == *self,
    {
        match self {
            Typed::Finish => Typed::Finish,
            Typed::Text(text) => Typed::Text(text.clone()),
            Typed::Refused(issue) => Typed::Refused(*issue),
        }
    }
}

/// What a line means that was typed where a word is asked for. The line is
/// trimmed first. The tests are made in this order: the separator, white
/// space, nothing left, the command `!done`, any other text that starts with
/// `!`.
pub open spec fn word_input(line: Seq<char>) -> TypedView {
    let text = trim(line);
    if text.contains(SEPARATOR) {
        TypedView::Refused(FieldIssue::Separator)
    } else if has_whitespace(text) {
        TypedView::Refused(FieldIssue::Whitespace)
    } else if text.len() == 0 {
        TypedView::Refused(FieldIssue::Empty)
    } else if text == "!done"@ {
        TypedView::Finish
    } else if text[0] == '!' {
        TypedView::Refused(FieldIssue::UnknownCommand)
    } else {
        TypedView::Text(text)
    }
}

/// What a line means that was typed where a definition is asked for. The line
/// is trimmed first. The tests are made in this order: the separator, a line
/// feed, nothing left, the command `!done`.
pub open spec fn definition_input(line: Seq<char>) -> TypedView {
    let text = trim(line);
    if text.contains(SEPARATOR) {
        TypedView::Refused(FieldIssue::Separator)
    } else if text.contains('\n') {
        TypedView::Refused(FieldIssue::LineBreak)
    } else if text.len() == 0 {
        TypedView::Refused(FieldIssue::Empty)
    } else if text == "!done"@ {
        TypedView::Finish
    } else {
        TypedView::Text(text)
    }
}

/// Whether `c` is one of the digits `0` to `9`, which have the codes 48 to 57.
pub open spec fn is_digit(c: char) -> bool {
    48 <= c as u32 <= 57
}

/// Whether `s` is made of digits only.
pub open spec fn all_digits(s: Seq<char>) -> bool {
    forall|i: int| 0 <= i < s.len() ==> is_digit(#[trigger] s[i])
}

/// The number that the digits `s` write in base ten.
pub open spec fn decimal(s: Seq<char>) -> nat
    decreases s.len(),
{
    if s.len() == 0 {
        0
    } else {
        (10 * decimal(s.drop_last()) + (s.last() as u32 - 48)) as nat
    }
}

/// The number of words to practice that a typed line asks for, if it asks for
/// one: the trimmed line is a number in base ten, with or without a `+` before
/// it, that is at least 1 and at most the greatest `i32`.
pub open spec fn count_input(line: Seq<char>) -> Option<nat> {
    let text = trim(line);
    let digits = if text.len() > 0 && text[0] == '+' {
        text.drop_first()
    } else {
        text
    };
    if digits.len() > 0 && all_digits(digits) && 0 < decimal(digits) <= i32::MAX {
        Some(decimal(digits))
    } else {
        None
    }
}

/// A text that is taken as a word is a word.
pub proof fn lemma_word_input(line: Seq<char>)
    ensures
        word_input(line) matches TypedView::Text(word) ==> is_word(word) && word == trim(line),
{
}

/// A text that is taken as a definition is a definition, is not empty and
/// neither starts nor ends with white space.
pub proof fn lemma_definition_input(line: Seq<char>)
    ensures
        definition_input(line) matches TypedView::Text(definition) ==> is_definition(definition)
            && definition == trim(line) && definition.len() > 0 && trailing_whitespace(definition)
            == 0,
{
    lemma_trim(line);
}

/// What is typed and accepted makes events that come back from a persisted
/// log as they went in: the introduction of an accepted word with an
/// accepted definition, and the practice of an accepted word.
pub proof fn lemma_accepted_input_persists(
    word_line: Seq<char>,
    definition_line: Seq<char>,
    confidence: Confidence,
    correctness: Correctness,
)
    requires
        word_input(word_line) is Text,
        definition_input(definition_line) is Text,
    ensures
        persistable(
            ActionView::Introduce {
                word: trim(word_line),
                confidence,
                definition: trim(definition_line),
            },
        ),
        persistable(ActionView::Practice { word: trim(word_line), correctness }),
{
    lemma_word_input(word_line);
    lemma_definition_input(definition_line);
}

/// The number that some digits write is at least the number that the first
/// of them write.
pub proof fn lemma_decimal_prefix(s: Seq<char>, k: int)
    requires
        all_digits(s),
        0 <= k <= s.len(),
    ensures
        decimal(s.take(k)) <= decimal(s),
    decreases s.len() - k,
{
    if k < s.len() {
        lemma_decimal_prefix(s, k + 1);
        assert(s.take(k + 1).drop_last() =~= s.take(k));
        assert(is_digit(s[k]));
        assert(s.take(k + 1).last() == s[k]);
    } else {
        assert(s.take(k) =~= s);
    }
}

/// What `line` means where a word is asked for.
pub fn read_word(line: &str) -> (typed: Typed)
    ensures
        typed@ == word_input(line@),
{
    let text = trim_str(line);
    if contains_char(text, SEPARATOR) {
        Typed::Refused(FieldIssue::Separator)
    } else if contains_whitespace(text) {
        Typed::Refused(FieldIssue::Whitespace)
    } else {
        match first_char(text) {
            None => Typed::Refused(FieldIssue::Empty),
            Some(first) => {
                if str_eq(text, "!done") {
                    Typed::Finish
                } else if first == '!' {
                    Typed::Refused(FieldIssue::UnknownCommand)
                } else {
                    Typed::Text(text.to_owned())
                }
            },
        }
    }
}

/// What `line` means where a definition is asked for.
pub fn read_definition(line: &str) -> (typed: Typed)
    ensures
        typed@ == definition_input(line@),
{
    let text = trim_str(line);
    if contains_char(text, SEPARATOR) {
        Typed::Refused(FieldIssue::Separator)
    } else if contains_char(text, '\n') {
        Typed::Refused(FieldIssue::LineBreak)
    } else if text.is_empty() {
        Typed::Refused(FieldIssue::Empty)
    } else if str_eq(text, "!done") {
        Typed::Finish
    } else {
        Typed::Text(text.to_owned())
    }
}

/// The number of words to practice that `line` asks for, if it asks for one.
pub fn read_count(line: &str) -> (count: Option<usize>)
    ensures
        match count {
            Some(n) => count_input(line@) == Some(n as nat),
            None => count_input(line@) is None,
        },
{
    let text = to_chars(trim_str(line));
    let start: usize = if text.len() > 0 && text[0] == '+' {
        1
    } else {
        0
    };
    let ghost digits = text@.skip(start as int);
    assert(start == 1 ==> digits =~= text@.drop_first());
    assert(start == 0 ==> digits =~= text@);
    if start == text.len() {
        return None;
    }
    let mut value: u64 = 0;
    let mut i: usize = start;
    assert(digits.take(0) =~= Seq::<char>::empty());
    while i < text.len()
        invariant
            start <= i <= text.len(),
            text@ == trim(line@),
            start == if text@.len() > 0 && text@[0] == '+' {
                1int
            } else {
                0int
            },
            digits == if start == 1 {
                text@.drop_first()
            } else {
                text@
            },
            digits == text@.skip(start as int),
            all_digits(digits.take(i - start)),
            value == decimal(digits.take(i - start)),
            value <= i32::MAX,
        decreases text.len() - i,
    {
        let c = text[i];
        let code: u32 = c as u32;
        let ghost read = digits.take(i - start);
        let ghost next = digits.take(i + 1 - start);
        proof {
            assert(next.drop_last() =~= read);
            assert(next.last() == c);
            assert(digits[i - start] == c);
        }
        if code < 48 || code > 57 {
            assert(!is_digit(digits[i - start]));
            return None;
        }
        value = value * 10 + (code - 48) as u64;
        if value > i32::MAX as u64 {
            proof {
                if all_digits(digits) {
                    lemma_decimal_prefix(digits, i + 1 - start);
                }
            }
            return None;
        }
        i = i + 1;
    }
    assert(digits.take(text@.len() - start) =~= digits);
    if value == 0 {
        None
    } else {
        Some(value as usize)
    }
}

} // verus!

//! Learning events and their encoding as lines of text.
//!
//! An event is written on one line, as fields separated by `$`:
//!
//! ```text
//! introduce$<word>$<confidence>$<definition>
//! practice$<word>$<correctness>
//! ```

use vstd::prelude::*;
use vstd::string::StringExecFns;
use crate::error::VocabParseError;
use crate::level::{Confidence, Correctness};
use crate::text::{
    contains_char, contains_whitespace, has_whitespace, join, lemma_split_join, push_char, split,
    split_str, str_eq, views,
};

verus! {

/// The character that separates the fields of an encoded event.
pub const SEPARATOR: char = '$';

/// One learning event.
#[derive(Debug, PartialEq, Eq)]
pub enum CodexAction {
    /// A word is introduced, or introduced anew: the word, how well it is
    /// known, and its definition.
    Introduce(String, Confidence, String),
    /// A word is practiced: the word and how correct the answer was.
    Practice(String, Correctness),
}

/// A learning event as a mathematical value.
pub enum ActionView {
    Introduce { word: Seq<char>, confidence: Confidence, definition: Seq<char> },
    Practice { word: Seq<char>, correctness: Correctness },
}

impl View for CodexAction {
    type V = ActionView;

    open spec fn view(&self) -> ActionView {
        match *self {
            CodexAction::Introduce(word, confidence, definition) => ActionView::Introduce {
                word: word@,
                confidence,
                definition: definition@,
            },
            CodexAction::Practice(word, correctness) => ActionView::Practice {
                word: word@,
                correctness,
            },
        }
    }
}

impl Clone for CodexAction {
    fn clone(&self) -> (copy: Self)
        ensures
            copy == *self,
    {
        match self {
            CodexAction::Introduce(word, confidence, definition) => CodexAction::Introduce(
                word.clone(),
                *confidence,
                definition.clone(),
            ),
            CodexAction::Practice(word, correctness) => CodexAction::Practice(
                word.clone(),
                *correctness,
            ),
        }
    }
}

/// Whether `s` can be the word of an event: it is not empty and holds neither
/// the separator nor white space.
pub open spec fn is_word(s: Seq<char>) -> bool {
    &&& s.len() > 0
    &&& !s.contains(SEPARATOR)
    &&& !has_whitespace(s)
}

/// Whether `s` can be the definition of a word: it holds neither the separator
/// nor a line break.
pub open spec fn is_definition(s: Seq<char>) -> bool {
    &&& !s.contains(SEPARATOR)
    &&& !s.contains('\n')
}

/// Whether `s` can be the word of an event.
pub fn valid_word(s: &str) -> (valid: bool)
    ensures
        valid == is_word(s@),
{
    !s.is_empty() && !contains_char(s, SEPARATOR) && !contains_whitespace(s)
}

/// Whether `s` can be the definition of a word.
pub fn valid_definition(s: &str) -> (valid: bool)
    ensures
        valid == is_definition(s@),
{
    !contains_char(s, SEPARATOR) && !contains_char(s, '\n')
}

impl ActionView {
    /// The word that the event is about.
    pub open spec fn word(self) -> Seq<char> {
        match self {
            ActionView::Introduce { word, .. } => word,
            ActionView::Practice { word, .. } => word,
        }
    }

    /// Whether no field of the event holds the separator.
    pub open spec fn separator_free(self) -> bool {
        match self {
            ActionView::Introduce { word, definition, .. } => !word.contains(SEPARATOR)
                && !definition.contains(SEPARATOR),
            ActionView::Practice { word, .. } => !word.contains(SEPARATOR),
        }
    }

    /// Whether the event can be written to a log: its word is a word and its
    /// definition, if it has one, is a definition.
    pub open spec fn well_formed(self) -> bool {
        match self {
            ActionView::Introduce { word, definition, .. } => is_word(word) && is_definition(
                definition,
            ),
            ActionView::Practice { word, .. } => is_word(word),
        }
    }

    /// The fields of the encoded event: a tag that tells the kind of event,
    /// then the word, the label of the level and, for an introduction, the
    /// definition.
    pub open spec fn fields(self) -> Seq<Seq<char>> {
        match self {
            ActionView::Introduce { word, confidence, definition } => seq![
                "introduce"@,
                word,
                confidence.label(),
                definition,
            ],
            ActionView::Practice { word, correctness } => seq![
                "practice"@,
                word,
                correctness.label(),
            ],
        }
    }

    /// The line that encodes the event: its fields, joined by the separator.
    pub open spec fn encode(self) -> Seq<char> {
        join(self.fields(), SEPARATOR)
    }

    /// The event that `line` encodes, if it encodes one: `line` has the four
    /// fields of an introduction or the three fields of a practice, with the
    /// right tag and with the label of a level.
    pub open spec fn decode(line: Seq<char>) -> Option<ActionView> {
        let fields = split(line, SEPARATOR);
        if fields.len() == 4 && fields[0] == "introduce"@ {
            match Confidence::from_label(fields[2]) {
                Some(confidence) => Some(
                    ActionView::Introduce { word: fields[1], confidence, definition: fields[3] },
                ),
                None => None,
            }
        } else if fields.len() == 3 && fields[0] == "practice"@ {
            match Correctness::from_label(fields[2]) {
                Some(correctness) => Some(ActionView::Practice { word: fields[1], correctness }),
                None => None,
            }
        } else {
            None
        }
    }

    /// Decoding undoes encoding: the line that encodes an event whose fields
    /// hold no separator, and so of every well-formed event, decodes to that
    /// event.
    pub proof fn lemma_decode_encode(self)
        requires
            self.separator_free(),
        ensures
            ActionView::decode(self.encode()) == Some(self),
    {
        reveal_strlit("introduce");
        reveal_strlit("practice");
        assert("introduce"@.len() == 9);
        assert("practice"@.len() == 8);
        match self {
            ActionView::Introduce { confidence, .. } => {
                confidence.lemma_label();
            },
            ActionView::Practice { correctness, .. } => {
                correctness.lemma_label();
            },
        }
        lemma_split_join(self.fields(), SEPARATOR);
    }
}

impl CodexAction {
    /// The word that the event is about.
    pub fn word(&self) -> (word: &str)
        ensures
            word@ == self@.word(),
    {
        match self {
            CodexAction::Introduce(word, _, _) => word.as_str(),
            CodexAction::Practice(word, _) => word.as_str(),
        }
    }

    /// Whether the event can be written to a log.
    pub fn is_well_formed(&self) -> (well_formed: bool)
        ensures
            well_formed == self@.well_formed(),
    {
        match self {
            CodexAction::Introduce(word, _, definition) => {
                valid_word(word.as_str()) && valid_definition(definition.as_str())
            },
            CodexAction::Practice(word, _) => valid_word(word.as_str()),
        }
    }

    /// The line that encodes the event.
    pub fn to_string(&self) -> (line: String)
        ensures
            line@ == self@.encode(),
    {
        proof {
            reveal_with_fuel(join, 5);
        }
        match self {
            CodexAction::Introduce(word, confidence, definition) => {
                let mut line = String::from_str("introduce");
                push_char(&mut line, SEPARATOR);
                line.append(word.as_str());
                push_char(&mut line, SEPARATOR);
                line.append(confidence.as_str());
                push_char(&mut line, SEPARATOR);
                line.append(definition.as_str());
                assert(self@.fields().drop_last().drop_last().drop_last() =~= seq!["introduce"@]);
                assert(self@.fields().drop_last().drop_last() =~= seq!["introduce"@, word@]);
                assert(self@.fields().drop_last() =~= seq![
                    "introduce"@,
                    word@,
                    confidence.label(),
                ]);
                line
            },
            CodexAction::Practice(word, correctness) => {
                let mut line = String::from_str("practice");
                push_char(&mut line, SEPARATOR);
                line.append(word.as_str());
                push_char(&mut line, SEPARATOR);
                line.append(correctness.as_str());
                assert(self@.fields().drop_last().drop_last() =~= seq!["practice"@]);
                assert(self@.fields().drop_last() =~= seq!["practice"@, word@]);
                line
            },
        }
    }

    /// The event that `line` encodes. A line that encodes none is an error.
    pub fn decode(line: &str) -> (decoded: Result<CodexAction, VocabParseError>)
        ensures
            match decoded {
                Ok(action) => ActionView::decode(line@) == Some(action@),
                Err(_) => ActionView::decode(line@) is None,
            },
    {
        let mut fields = split_str(line, SEPARATOR);
        let ghost all = views(fields@);
        let count = fields.len();
        if count == 4 && str_eq(fields[0].as_str(), "introduce") {
            let definition = fields.pop().unwrap();
            let label = fields.pop().unwrap();
            let word = fields.pop().unwrap();
            assert(definition@ == all[3] && label@ == all[2] && word@ == all[1]);
            match Confidence::from_str(label.as_str()) {
                Ok(confidence) => Ok(CodexAction::Introduce(word, confidence, definition)),
                Err(e) => Err(e),
            }
        } else if count == 3 && str_eq(fields[0].as_str(), "practice") {
            let label = fields.pop().unwrap();
            let word = fields.pop().unwrap();
            assert(label@ == all[2] && word@ == all[1]);
            match Correctness::from_str(label.as_str()) {
                Ok(correctness) => Ok(CodexAction::Practice(word, correctness)),
                Err(e) => Err(e),
            }
        } else {
            Err(VocabParseError)
        }
    }
}

} // verus!

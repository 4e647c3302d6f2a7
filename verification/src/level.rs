//! The two scales on which a learner is graded: how confidently a word is
//! known when it is introduced, and how correct an answer was in practice.

use vstd::prelude::*;
use vstd::string::StringExecFns;
use crate::error::VocabParseError;
use crate::text::{has_whitespace, str_eq};

verus! {

/// How well a word is known when it is introduced.
#[derive(Clone, Copy, Debug, PartialEq, Eq, Structural)]
pub enum Confidence {
    Known,
    PartiallyKnown,
    Unknown,
}

/// How correct an answer was in practice.
#[derive(Clone, Copy, Debug, PartialEq, Eq, Structural)]
pub enum Correctness {
    Correct,
    PartiallyCorrect,
    Incorrect,
}

impl Confidence {
    /// The label that stands for this level in an encoded event.
    pub open spec fn label(self) -> Seq<char> {
        match self {
            Confidence::Known => "known"@,
            Confidence::PartiallyKnown => "partially_known"@,
            Confidence::Unknown => "unknown"@,
        }
    }

    /// The level that `label` stands for, if it stands for one.
    pub open spec fn from_label(label: Seq<char>) -> Option<Confidence> {
        if label == "known"@ {
            Some(Confidence::Known)
        } else if label == "partially_known"@ {
            Some(Confidence::PartiallyKnown)
        } else if label == "unknown"@ {
            Some(Confidence::Unknown)
        } else {
            None
        }
    }

    /// The score that a word introduced at this level starts with: 0.9, 0.5
    /// and 0.1 of `SCORE_ONE`.
    pub open spec fn spec_weight(self) -> int {
        match self {
            Confidence::Known => 900_000_000,
            Confidence::PartiallyKnown => 500_000_000,
            Confidence::Unknown => 100_000_000,
        }
    }

    /// The score that a word introduced at this level starts with.
    pub fn weight(&self) -> (w: u64)
        ensures
            w == self.spec_weight(),
    {
        match self {
            Confidence::Known => 900_000_000,
            Confidence::PartiallyKnown => 500_000_000,
            Confidence::Unknown => 100_000_000,
        }
    }

    /// The label that stands for this level in an encoded event.
    pub fn as_str(&self) -> (label: &'static str)
        ensures
            label@ == self.label(),
    {
        match self {
            Confidence::Known => "known",
            Confidence::PartiallyKnown => "partially_known",
            Confidence::Unknown => "unknown",
        }
    }

    /// The label of this level as a string of its own.
    pub fn to_string(&self) -> (label: String)
        ensures
            label@ == self.label(),
    {
        String::from_str(self.as_str())
    }

    /// The level that `s` is the label of. Any other text is an error.
    pub fn from_str(s: &str) -> (parsed: Result<Confidence, VocabParseError>)
        ensures
            match parsed {
                Ok(level) => Confidence::from_label(s@) == Some(level),
                Err(_) => Confidence::from_label(s@) is None,
            },
    {
        if str_eq(s, "known") {
            Ok(Confidence::Known)
        } else if str_eq(s, "partially_known") {
            Ok(Confidence::PartiallyKnown)
        } else if str_eq(s, "unknown") {
            Ok(Confidence::Unknown)
        } else {
            Err(VocabParseError)
        }
    }

    /// A label stands for the level that it is the label of. It is not empty
    /// and holds neither `$` nor white space.
    pub proof fn lemma_label(self)
        ensures
            Confidence::from_label(self.label()) == Some(self),
            self.label().len() > 0,
            !self.label().contains('$'),
            !has_whitespace(self.label()),
    {
        reveal_strlit("known");
        reveal_strlit("partially_known");
        reveal_strlit("unknown");
        assert("known"@.len() == 5);
        assert("partially_known"@.len() == 15);
        assert("unknown"@.len() == 7);
    }
}

impl Correctness {
    /// The label that stands for this level in an encoded event.
    pub open spec fn label(self) -> Seq<char> {
        match self {
            Correctness::Correct => "correct"@,
            Correctness::PartiallyCorrect => "partially_correct"@,
            Correctness::Incorrect => "incorrect"@,
        }
    }

    /// The level that `label` stands for, if it stands for one.
    pub open spec fn from_label(label: Seq<char>) -> Option<Correctness> {
        if label == "correct"@ {
            Some(Correctness::Correct)
        } else if label == "partially_correct"@ {
            Some(Correctness::PartiallyCorrect)
        } else if label == "incorrect"@ {
            Some(Correctness::Incorrect)
        } else {
            None
        }
    }

    /// The weight of an answer of this level in the score of its word: 1.0,
    /// 0.5 and 0.0 of `SCORE_ONE`.
    pub open spec fn spec_weight(self) -> int {
        match self {
            Correctness::Correct => 1_000_000_000,
            Correctness::PartiallyCorrect => 500_000_000,
            Correctness::Incorrect => 0,
        }
    }

    /// The weight of an answer of this level in the score of its word.
    pub fn weight(&self) -> (w: u64)
        ensures
            w == self.spec_weight(),
    {
        match self {
            Correctness::Correct => 1_000_000_000,
            Correctness::PartiallyCorrect => 500_000_000,
            Correctness::Incorrect => 0,
        }
    }

    /// The label that stands for this level in an encoded event.
    pub fn as_str(&self) -> (label: &'static str)
        ensures
            label@ == self.label(),
    {
        match self {
            Correctness::Correct => "correct",
            Correctness::PartiallyCorrect => "partially_correct",
            Correctness::Incorrect => "incorrect",
        }
    }

    /// The label of this level as a string of its own.
    pub fn to_string(&self) -> (label: String)
        ensures
            label@ == self.label(),
    {
        String::from_str(self.as_str())
    }

    /// The level that `s` is the label of. Any other text is an error.
    pub fn from_str(s: &str) -> (parsed: Result<Correctness, VocabParseError>)
        ensures
            match parsed {
                Ok(level) => Correctness::from_label(s@) == Some(level),
                Err(_) => Correctness::from_label(s@) is None,
            },
    {
        if str_eq(s, "correct") {
            Ok(Correctness::Correct)
        } else if str_eq(s, "partially_correct") {
            Ok(Correctness::PartiallyCorrect)
        } else if str_eq(s, "incorrect") {
            Ok(Correctness::Incorrect)
        } else {
            Err(VocabParseError)
        }
    }

    /// A label stands for the level that it is the label of. It is not empty
    /// and holds neither `$` nor white space.
    pub proof fn lemma_label(self)
        ensures
            Correctness::from_label(self.label()) == Some(self),
            self.label().len() > 0,
            !self.label().contains('$'),
            !has_whitespace(self.label()),
    {
        reveal_strlit("correct");
        reveal_strlit("partially_correct");
        reveal_strlit("incorrect");
        assert("correct"@.len() == 7);
        assert("partially_correct"@.len() == 17);
        assert("incorrect"@.len() == 9);
    }
}

} // verus!

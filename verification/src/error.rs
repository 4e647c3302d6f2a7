//! What can go wrong with a log of learning events.

use vstd::prelude::*;

verus! {

/// A text is not the encoding of anything: a line of a log does not follow the
/// grammar of the log, or a label names no level.
#[derive(Clone, Copy, Debug, PartialEq, Eq, Structural)]
pub struct VocabParseError;

/// A word is practiced that no earlier event of the log has introduced.
#[derive(Clone, Copy, Debug, PartialEq, Eq, Structural)]
pub struct UnknownWordError;

/// Why a persisted log cannot be loaded.
#[derive(Clone, Copy, Debug, PartialEq, Eq, Structural)]
pub enum LoadError {
    /// A line that is not blank does not decode.
    Malformed,
    /// A line practices a word that no earlier line introduces.
    PracticeOnUnknownWord,
}

} // verus!

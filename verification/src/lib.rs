//! A personal vocabulary tracker: a log of learning events, the knowledge of
//! each word that follows from it, and the choice of words to practice next.
//!
//! The log is the source of truth. An event introduces a word or records how
//! a practice of it went (`action`), graded on one of two scales (`level`).
//! Replaying the log gives the knowledge store (`store`), in which every word
//! has a score that moves with each practice (`score`). The codex holds log
//! and store together, loads the log from its persisted form and saves it
//! (`codex`, `persist`), and picks the words to practice next (`select`).
//! Around it stand the prompts that put questions to the user (`prompt`) and
//! the reading of what the user typed (`input`).

pub mod action;
pub mod codex;
pub mod error;
pub mod input;
pub mod level;
pub mod persist;
pub mod prompt;
pub mod score;
pub mod select;
pub mod store;
pub mod text;

pub use action::CodexAction;
pub use codex::{Codex, WordEntry};
pub use error::{LoadError, UnknownWordError, VocabParseError};
pub use level::{Confidence, Correctness};
pub use prompt::{ChoicePrompt, Prompt, ValidatedFieldPrompt};

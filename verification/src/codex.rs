//! The codex: the log of learning events together with the knowledge store
//! that follows from it.
//!
//! The log is the source of truth. The store is kept up to date as events are
//! appended, and is at every moment what replaying the log gives.

use vstd::hash_map::StringHashMap;
use vstd::prelude::*;
use crate::action::{ActionView, CodexAction};
use crate::error::{LoadError, UnknownWordError};
use crate::score::{update_score, SCORE_ONE};
use crate::persist::{
    encoded_lines, lemma_load_stops_at_first_error, load_lines, load_text, save_text,
};
use crate::select::{
    draw_fuzz, fits_span, fuzzed_scores, pairs, practice_set, selection, selection_order,
    within_span,
};
use crate::store::{
    accepts, apply, find, lemma_apply, lemma_find, lemma_replay_invariants, replay,
    scores_bounded, sound, EntryView,
};
use crate::text::{join_strings, split, split_str, trim_str, views};

verus! {

/// What the codex knows of one word.
#[derive(Debug, PartialEq, Eq)]
pub struct WordEntry {
    word: String,
    knowledge_score: u64,
    definition: String,
}

impl View for WordEntry {
    type V = EntryView;

    closed spec fn view(&self) -> EntryView {
        EntryView {
            word: self.word@,
            score: self.knowledge_score as int,
            definition: self.definition@,
        }
    }
}

impl Clone for WordEntry {
    fn clone(&self) -> (copy: Self)
        ensures
            copy == *self,
    {
        WordEntry {
            word: self.word.clone(),
            knowledge_score: self.knowledge_score,
            definition: self.definition.clone(),
        }
    }
}

impl WordEntry {
    /// The word.
    pub fn word(&self) -> (word: &str)
        ensures
            word@ == self@.word,
    {
        self.word.as_str()
    }

    /// The knowledge score of the word, in units of which `SCORE_ONE` make
    /// one.
    pub fn knowledge_score(&self) -> (score: u64)
        ensures
            score == self@.score,
    {
        self.knowledge_score
    }

    /// The definition of the word.
    pub fn definition(&self) -> (definition: &str)
        ensures
            definition@ == self@.definition,
    {
        self.definition.as_str()
    }
}

/// The log of learning events and the knowledge store that follows from it.
///
/// The store is a list of entries in the order in which the words were first
/// introduced, so that words with one fuzzed score come to practice in an
/// order that does not change from run to run. A hash map from each word to
/// the place of its entry finds a word without walking the list.
pub struct Codex {
    history: Vec<CodexAction>,
    /// The store: one entry for each word, in the order of first introduction.
    entries: Vec<WordEntry>,
    /// For each word the place of its entry.
    index: StringHashMap<usize>,
}

impl View for Codex {
    type V = Seq<ActionView>;

    /// The log: every event that was processed, in order.
    closed spec fn view(&self) -> Seq<ActionView> {
        Seq::new(self.history@.len(), |i: int| self.history@[i]@)
    }
}

impl Codex {
    /// The knowledge store that the codex holds.
    pub closed spec fn store(&self) -> Seq<EntryView> {
        Seq::new(self.entries@.len(), |i: int| self.entries@[i]@)
    }

    /// Whether the index finds every word of the store, where it stands, and
    /// no other word.
    pub closed spec fn indexed(&self) -> bool {
        forall|word: Seq<char>|
            match #[trigger] find(self.store(), word) {
                Some(i) => self.index@.contains_key(word) && self.index@[word] == i,
                None => !self.index@.contains_key(word),
            }
    }

    /// The invariant of the codex, which holds of every codex that a program
    /// can get hold of: every practice in the log is of a word that was
    /// introduced before, the store is what replaying the log gives, and the
    /// index fits the store.
    #[verifier::type_invariant]
    pub open spec fn wf(&self) -> bool {
        &&& sound(self@)
        &&& self.store() == replay(self@)
        &&& self.indexed()
    }

    /// A codex with an empty log, which knows no word.
    pub fn new() -> (codex: Codex)
        ensures
            codex.wf(),
            codex@ == Seq::<ActionView>::empty(),
    {
        let history: Vec<CodexAction> = Vec::new();
        let entries: Vec<WordEntry> = Vec::new();
        let index: StringHashMap<usize> = StringHashMap::new();
        let ghost empty = Codex { history, entries, index };
        proof {
            assert(empty@ =~= Seq::<ActionView>::empty());
            assert(empty.store() =~= replay(empty@));
        }
        Codex { history, entries, index }
    }

    /// Where `word` stands in the store, if it is known.
    fn position(&self, word: &str) -> (at: Option<usize>)
        ensures
            match at {
                Some(i) => i < self.entries.len() && find(self.store(), word@) == Some(i as int),
                None => find(self.store(), word@) is None,
            },
    {
        proof {
            use_type_invariant(self);
            lemma_find(self.store(), word@);
        }
        match self.index.get(word) {
            Some(i) => Some(*i),
            None => None,
        }
    }

    /// Appends `action` to the log and applies it to the store.
    ///
    /// A practice of a word that was never introduced is refused: the codex
    /// stays as it was and the error says so.
    pub fn process_action(&mut self, action: CodexAction) -> (done: Result<(), UnknownWordError>)
        ensures
            final(self).wf(),
            match done {
                Ok(_) => accepts(old(self).store(), action@) && final(self)@ == old(self)@.push(
                    action@,
                ) && final(self).store() == apply(old(self).store(), action@),
                Err(_) => !accepts(old(self).store(), action@) && final(self)@ == old(self)@
                    && final(self).store() == old(self).store(),
            },
    {
        proof {
            use_type_invariant(&*self);
        }
        let ghost log = self@;
        let ghost store = self.store();
        let at = self.position(action.word());
        if at.is_none() {
            if let CodexAction::Practice(_, _) = &action {
                return Err(UnknownWordError);
            }
        }
        // The invariant has to hold whenever the codex is borrowed, so the
        // codex is taken apart, changed, and put together again.
        let mut taken = Codex::new();
        core::mem::swap(self, &mut taken);
        let Codex { mut history, mut entries, mut index } = taken;
        match &action {
            CodexAction::Introduce(word, confidence, definition) => {
                let score = confidence.weight();
                match at {
                    Some(i) => {
                        let ghost before = entries@;
                        entries[i].knowledge_score = score;
                        entries[i].definition = definition.clone();
                        proof {
                            lemma_find(store, word@);
                            assert(entries@[i as int].word == before[i as int].word);
                        }
                    },
                    None => {
                        index.insert(word.clone(), entries.len());
                        entries.push(
                            WordEntry {
                                word: word.clone(),
                                knowledge_score: score,
                                definition: definition.clone(),
                            },
                        );
                    },
                }
            },
            CodexAction::Practice(_, correctness) => {
                if let Some(i) = at {
                    let score = update_score(entries[i].knowledge_score, correctness.weight());
                    entries[i].knowledge_score = score;
                }
            },
        }
        let ghost event = action@;
        history.push(action);
        let ghost next = Codex { history, entries, index };
        proof {
            assert(next.store() =~= apply(store, event));
            assert(next@ =~= log.push(event));
            assert(next@.drop_last() =~= log);
            lemma_replay_invariants(log);
            lemma_apply(store, event);
            assert forall|word: Seq<char>|
                match #[trigger] find(next.store(), word) {
                    Some(i) => next.index@.contains_key(word) && next.index@[word] == i,
                    None => !next.index@.contains_key(word),
                } by {
                // The index fitted the store as it was, and an event moves no
                // word that was known.
                let before = find(store, word);
            }
        }
        *self = Codex { history, entries, index };
        Ok(())
    }

    /// The codex that a persisted log leads to: its events, replayed in
    /// order. Blank lines are skipped. If any line fails, nothing is loaded,
    /// and the first line that fails decides the error.
    pub fn load(text: &str) -> (loaded: Result<Codex, LoadError>)
        ensures
            match loaded {
                Ok(codex) => codex.wf() && load_text(text@) == Ok::<_, LoadError>(codex@),
                Err(e) => load_text(text@) == Err::<Seq<ActionView>, _>(e),
            },
    {
        let lines = split_str(text, '\n');
        let mut codex = Codex::new();
        let mut i: usize = 0;
        assert(views(lines@).take(0) =~= Seq::<Seq<char>>::empty());
        while i < lines.len()
            invariant
                i <= lines.len(),
                views(lines@) == split(text@, '\n'),
                codex.wf(),
                load_lines(views(lines@).take(i as int)) == Ok::<_, LoadError>(codex@),
            decreases lines.len() - i,
        {
            let ghost read = views(lines@).take(i as int);
            let ghost next = views(lines@).take(i + 1);
            proof {
                assert(next.drop_last() =~= read);
                assert(next.last() == lines@[i as int]@);
                lemma_load_stops_at_first_error(next, views(lines@));
            }
            let line = trim_str(lines[i].as_str());
            if !line.is_empty() {
                match CodexAction::decode(line) {
                    Err(_) => {
                        return Err(LoadError::Malformed);
                    },
                    Ok(action) => {
                        if codex.process_action(action).is_err() {
                            return Err(LoadError::PracticeOnUnknownWord);
                        }
                    },
                }
            }
            i = i + 1;
        }
        assert(views(lines@).take(lines@.len() as int) =~= views(lines@));
        Ok(codex)
    }

    /// The persisted form of the log: one line for each event, in the order
    /// in which the events were processed, with a line feed between each two
    /// lines.
    pub fn save(&self) -> (text: String)
        ensures
            text@ == save_text(self@),
    {
        let mut lines: Vec<String> = Vec::new();
        let mut i: usize = 0;
        while i < self.history.len()
            invariant
                i <= self.history.len(),
                views(lines@) == encoded_lines(self@).take(i as int),
            decreases self.history.len() - i,
        {
            let ghost done = views(lines@);
            let line = self.history[i].to_string();
            lines.push(line);
            proof {
                assert(encoded_lines(self@)[i as int] == line@);
                assert(views(lines@) =~= done.push(line@));
                assert(views(lines@) =~= encoded_lines(self@).take(i + 1));
            }
            i = i + 1;
        }
        assert(encoded_lines(self@).take(self@.len() as int) =~= encoded_lines(self@));
        join_strings(&lines, '\n')
    }

    /// Whether `word` is known.
    pub fn contains(&self, word: &str) -> (known: bool)
        ensures
            known == find(self.store(), word@) is Some,
    {
        self.position(word).is_some()
    }

    /// The number of words that are known.
    pub fn num_words(&self) -> (count: usize)
        ensures
            count == self.store().len(),
    {
        self.entries.len()
    }

    /// The number of events in the log.
    pub fn num_actions(&self) -> (count: usize)
        ensures
            count == self@.len(),
    {
        self.history.len()
    }

    /// What is known of `word`, if it is known. The score of a known word is
    /// above zero and below one.
    pub fn entry(&self, word: &str) -> (entry: Option<&WordEntry>)
        ensures
            match entry {
                Some(e) => find(self.store(), word@) is Some && e@ == self.store()[find(
                    self.store(),
                    word@,
                ).unwrap()] && 0 < e@.score < SCORE_ONE,
                None => find(self.store(), word@) is None,
            },
    {
        proof {
            use_type_invariant(self);
            lemma_replay_invariants(self@);
        }
        match self.position(word) {
            Some(i) => Some(&self.entries[i]),
            None => None,
        }
    }

    /// The practice set for given fuzz: word and definition of the `count`
    /// words with the lowest fuzzed scores, or of all words if fewer are
    /// known, lowest first. The fuzzed score of a word is its score plus the
    /// fuzz at the word's place in the store, where the words stand in the
    /// order in which they were first introduced. Of two words with one
    /// fuzzed score the one that was introduced first goes first.
    ///
    /// There is no practice set if `fuzz` does not fit: it has to hold one
    /// value for each known word, each within the span.
    pub fn practice_set_with_fuzz(&self, fuzz: &Vec<i64>, count: usize) -> (set: Option<
        Vec<(String, String)>,
    >)
        ensures
            match set {
                Some(set) => fuzz@.len() == self.store().len() && within_span(fuzz@) && pairs(set@)
                    == practice_set(self.store(), fuzz@, count as nat),
                None => fuzz@.len() != self.store().len() || !within_span(fuzz@),
            },
    {
        if fuzz.len() == self.entries.len() && fits_span(fuzz) {
            Some(self.ordered_by(fuzz, count))
        } else {
            None
        }
    }

    /// The practice set for fuzz that fits the store.
    fn ordered_by(&self, fuzz: &Vec<i64>, count: usize) -> (set: Vec<(String, String)>)
        requires
            fuzz@.len() == self.store().len(),
            within_span(fuzz@),
        ensures
            pairs(set@) == practice_set(self.store(), fuzz@, count as nat),
            set@.len() == if count <= self.store().len() {
                count as nat
            } else {
                self.store().len()
            },
    {
        proof {
            use_type_invariant(self);
            lemma_replay_invariants(self@);
        }
        let n = self.entries.len();
        let mut keys: Vec<i64> = Vec::new();
        while keys.len() < n
            invariant
                n == self.entries@.len(),
                fuzz@.len() == n,
                within_span(fuzz@),
                scores_bounded(self.store()),
                keys@.len() <= n,
                keys@ == fuzzed_scores(self.store(), fuzz@).take(keys@.len() as int),
            decreases n - keys.len(),
        {
            let i = keys.len();
            assert(0 < self.store()[i as int].score < SCORE_ONE);
            let key = self.entries[i].knowledge_score as i64 + fuzz[i];
            keys.push(key);
            assert(keys@ =~= fuzzed_scores(self.store(), fuzz@).take(keys@.len() as int));
        }
        assert(keys@ =~= fuzzed_scores(self.store(), fuzz@));
        let order = selection_order(&keys, count);
        let ghost wanted = practice_set(self.store(), fuzz@, count as nat);
        let mut set: Vec<(String, String)> = Vec::new();
        while set.len() < order.len()
            invariant
                keys@ == fuzzed_scores(self.store(), fuzz@),
                keys@.len() == self.entries@.len(),
                wanted == practice_set(self.store(), fuzz@, count as nat),
                order@.len() == selection(keys@, count as nat).len(),
                forall|r: int|
                    0 <= r < order@.len() ==> #[trigger] order@[r] == selection(
                        keys@,
                        count as nat,
                    )[r],
                forall|r: int| 0 <= r < order@.len() ==> (#[trigger] order@[r]) < keys@.len(),
                set@.len() <= order@.len(),
                pairs(set@) == wanted.take(set@.len() as int),
            decreases order.len() - set.len(),
        {
            let i = order[set.len()];
            let word = self.entries[i].word.clone();
            let definition = self.entries[i].definition.clone();
            set.push((word, definition));
            assert(pairs(set@) =~= wanted.take(set@.len() as int));
        }
        assert(pairs(set@) =~= wanted);
        set
    }

    /// A practice set of `count` words, or of all words if fewer are known:
    /// word and definition of those with the lowest fuzzed scores, lowest
    /// first. The fuzz is drawn afresh for every word at every call, so which
    /// set comes is left open: it is the practice set for some fuzz within the
    /// span.
    pub fn generate_practice_set(&self, count: usize) -> (set: Vec<(String, String)>)
        ensures
            set@.len() == if count <= self.store().len() {
                count as nat
            } else {
                self.store().len()
            },
            exists|fuzz: Seq<i64>|
                fuzz.len() == self.store().len() && within_span(fuzz) && pairs(set@)
                    == #[trigger] practice_set(self.store(), fuzz, count as nat),
    {
        let fuzz = draw_fuzz(self.entries.len());
        self.ordered_by(&fuzz, count)
    }
}

/// Replay is deterministic: two codices loaded from the same text have the
/// same log and hold the same store, so the same words with the same scores
/// and definitions.
pub proof fn lemma_load_deterministic(text: Seq<char>, first: Codex, second: Codex)
    requires
        first.wf(),
        second.wf(),
        load_text(text) == Ok::<_, LoadError>(first@),
        load_text(text) == Ok::<_, LoadError>(second@),
    ensures
        first@ == second@,
        first.store() == second.store(),
{
}

} // verus!

//! The knowledge store as a mathematical value: what is known of each word,
//! and how a log of learning events determines it.

use vstd::prelude::*;
use crate::action::ActionView;
use crate::score::{blend, lemma_practice_within_bounds, practiced, SCORE_ONE};

verus! {

/// What is known of one word.
pub struct EntryView {
    pub word: Seq<char>,
    /// The knowledge score, in units of which `SCORE_ONE` make one.
    pub score: int,
    pub definition: Seq<char>,
}

/// Where `word` stands in `store`, if it is known there: the place of its
/// first entry.
pub open spec fn find(store: Seq<EntryView>, word: Seq<char>) -> Option<int>
    decreases store.len(),
{
    if store.len() == 0 {
        None
    } else {
        match find(store.drop_last(), word) {
            Some(i) => Some(i),
            None => if store.last().word == word {
                Some(store.len() - 1)
            } else {
                None
            },
        }
    }
}

/// Whether `store` can take `action`: every introduction, but a practice only
/// of a word that is known.
pub open spec fn accepts(store: Seq<EntryView>, action: ActionView) -> bool {
    action is Introduce || find(store, action.word()) is Some
}

/// The store after `action`.
///
/// An introduction sets the word's score to the weight of the confidence and
/// its definition to the one given; a word that was not known is added after
/// the others, one that was known keeps its place and nothing of its past.
/// A practice blends the weight of the answer into the word's score. A
/// practice of a word that is not known changes nothing.
pub open spec fn apply(store: Seq<EntryView>, action: ActionView) -> Seq<EntryView> {
    match action {
        ActionView::Introduce { word, confidence, definition } => {
            let entry = EntryView { word, score: confidence.spec_weight(), definition };
            match find(store, word) {
                Some(i) => store.update(i, entry),
                None => store.push(entry),
            }
        },
        ActionView::Practice { word, correctness } => match find(store, word) {
            Some(i) => store.update(
                i,
                EntryView {
                    word: store[i].word,
                    score: blend(store[i].score, correctness.spec_weight()),
                    definition: store[i].definition,
                },
            ),
            None => store,
        },
    }
}

/// The store that the events of `log` lead to, applied in order to a store
/// that knows nothing.
pub open spec fn replay(log: Seq<ActionView>) -> Seq<EntryView>
    decreases log.len(),
{
    if log.len() == 0 {
        Seq::empty()
    } else {
        apply(replay(log.drop_last()), log.last())
    }
}

/// Whether every practice in `log` is of a word that an earlier event of
/// `log` has introduced.
pub open spec fn sound(log: Seq<ActionView>) -> bool
    decreases log.len(),
{
    log.len() == 0 || (sound(log.drop_last()) && accepts(replay(log.drop_last()), log.last()))
}

/// The store after `action` has been applied `times` times.
pub open spec fn apply_times(store: Seq<EntryView>, action: ActionView, times: nat) -> Seq<
    EntryView,
>
    decreases times,
{
    if times == 0 {
        store
    } else {
        apply(apply_times(store, action, (times - 1) as nat), action)
    }
}

/// Whether two stores know the same words, each at the same place.
pub open spec fn same_words(first: Seq<EntryView>, second: Seq<EntryView>) -> bool {
    &&& first.len() == second.len()
    &&& forall|i: int| 0 <= i < first.len() ==> (#[trigger] first[i]).word == second[i].word
}

/// Whether no word has two entries in `store`.
pub open spec fn distinct_words(store: Seq<EntryView>) -> bool {
    forall|i: int, j: int|
        0 <= i < j < store.len() ==> (#[trigger] store[i]).word != (#[trigger] store[j]).word
}

/// Whether every score in `store` is above zero and below one.
pub open spec fn scores_bounded(store: Seq<EntryView>) -> bool {
    forall|i: int| 0 <= i < store.len() ==> 0 < (#[trigger] store[i]).score < SCORE_ONE
}

/// What `find` finds: the first entry of the word, and nothing only if the
/// word has no entry.
pub proof fn lemma_find(store: Seq<EntryView>, word: Seq<char>)
    ensures
        match find(store, word) {
            Some(i) => 0 <= i < store.len() && store[i].word == word && forall|j: int|
                0 <= j < i ==> (#[trigger] store[j]).word != word,
            None => forall|j: int| 0 <= j < store.len() ==> (#[trigger] store[j]).word != word,
        },
    decreases store.len(),
{
    if store.len() > 0 {
        let init = store.drop_last();
        lemma_find(init, word);
        assert forall|j: int| 0 <= j < init.len() implies init[j] == store[j] by {}
        match find(init, word) {
            Some(i) => {
                assert forall|j: int| 0 <= j < i implies (#[trigger] store[j]).word != word by {
                    assert(init[j] == store[j]);
                }
            },
            None => {
                assert forall|j: int| 0 <= j < store.len() - 1 implies (#[trigger] store[j]).word
                    != word by {
                    assert(init[j] == store[j]);
                }
            },
        }
    }
}

/// A word is found at the first place where it stands.
pub proof fn lemma_find_first(store: Seq<EntryView>, word: Seq<char>, i: int)
    requires
        0 <= i < store.len(),
        store[i].word == word,
        forall|j: int| 0 <= j < i ==> (#[trigger] store[j]).word != word,
    ensures
        find(store, word) == Some(i),
{
    lemma_find(store, word);
    match find(store, word) {
        Some(k) => {
            if k < i {
                assert(store[k].word != word);
            }
            if i < k {
                assert(store[i].word != word);
            }
        },
        None => {
            assert(store[i].word != word);
        },
    }
}

/// A word that stands nowhere is not found.
pub proof fn lemma_find_nowhere(store: Seq<EntryView>, word: Seq<char>)
    requires
        forall|j: int| 0 <= j < store.len() ==> (#[trigger] store[j]).word != word,
    ensures
        find(store, word) is None,
{
    lemma_find(store, word);
    if let Some(k) = find(store, word) {
        assert(store[k].word != word);
    }
}

/// Where a word is found depends on the words of a store alone.
pub proof fn lemma_find_same_words(first: Seq<EntryView>, second: Seq<EntryView>, word: Seq<char>)
    requires
        same_words(first, second),
    ensures
        find(first, word) == find(second, word),
{
    lemma_find(first, word);
    match find(first, word) {
        Some(i) => {
            assert(first[i].word == second[i].word);
            assert forall|j: int| 0 <= j < i implies (#[trigger] second[j]).word != word by {
                assert(first[j].word == second[j].word);
            }
            lemma_find_first(second, word, i);
        },
        None => {
            assert forall|j: int| 0 <= j < second.len() implies (#[trigger] second[j]).word
                != word by {
                assert(first[j].word == second[j].word);
            }
            lemma_find_nowhere(second, word);
        },
    }
}

/// An event changes the store in one place at most: the number of entries
/// grows by one if a new word is introduced, which then stands last; the
/// words that were known keep their places, and no other word's entry is
/// touched. Distinct words stay distinct and bounded scores stay bounded.
pub proof fn lemma_apply(store: Seq<EntryView>, action: ActionView)
    requires
        distinct_words(store),
        scores_bounded(store),
    ensures
        distinct_words(apply(store, action)),
        scores_bounded(apply(store, action)),
        apply(store, action).len() == if action is Introduce && find(store, action.word())
            is None {
            store.len() + 1
        } else {
            store.len()
        },
        forall|word: Seq<char>|
            word != action.word() || find(store, word) is Some ==> #[trigger] find(
                apply(store, action),
                word,
            ) == find(store, word),
        action is Introduce && find(store, action.word()) is None ==> find(
            apply(store, action),
            action.word(),
        ) == Some(store.len() as int),
        forall|i: int|
            0 <= i < store.len() ==> (#[trigger] apply(store, action)[i]).word == store[i].word,
        forall|i: int|
            0 <= i < store.len() && store[i].word != action.word() ==> #[trigger] apply(
                store,
                action,
            )[i] == store[i],
{
    let after = apply(store, action);
    let target = action.word();
    lemma_find(store, target);
    match action {
        ActionView::Practice { correctness, .. } => {
            if let Some(i) = find(store, target) {
                lemma_practice_within_bounds(store[i].score, correctness.spec_weight());
            }
        },
        _ => {},
    }
    assert forall|i: int| 0 <= i < store.len() implies (#[trigger] after[i]).word
        == store[i].word by {}
    assert forall|i: int, j: int| 0 <= i < j < after.len() implies (#[trigger] after[i]).word != (
    #[trigger] after[j]).word by {
        if j < store.len() {
            assert(store[i].word != store[j].word);
        } else {
            assert(store[i].word != target);
        }
    }
    if action is Introduce && find(store, target) is None {
        assert(after[store.len() as int].word == target);
        lemma_find_first(after, target, store.len() as int);
    }
    assert forall|word: Seq<char>|
        word != target || find(store, word) is Some implies #[trigger] find(after, word) == find(
        store,
        word,
    ) by {
        lemma_find(store, word);
        match find(store, word) {
            Some(k) => {
                assert(after[k].word == word);
                assert forall|j: int| 0 <= j < k implies (#[trigger] after[j]).word != word by {
                    assert(store[j].word != word);
                }
                lemma_find_first(after, word, k);
            },
            None => {
                assert forall|j: int| 0 <= j < after.len() implies (#[trigger] after[j]).word
                    != word by {
                    if j < store.len() {
                        assert(store[j].word != word);
                    }
                }
                lemma_find_nowhere(after, word);
            },
        }
    }
}

/// Replaying a log gives a store in which no word has two entries and every
/// score is above zero and below one: no event takes a score to zero or to
/// one.
pub proof fn lemma_replay_invariants(log: Seq<ActionView>)
    ensures
        distinct_words(replay(log)),
        scores_bounded(replay(log)),
    decreases log.len(),
{
    if log.len() > 0 {
        lemma_replay_invariants(log.drop_last());
        lemma_apply(replay(log.drop_last()), log.last());
    }
}

/// Introducing resets: whatever was known of a word before, after it is
/// introduced its score is the weight of the confidence given and its
/// definition the one given.
pub proof fn lemma_introduce_resets(
    store: Seq<EntryView>,
    word: Seq<char>,
    confidence: crate::level::Confidence,
    definition: Seq<char>,
)
    ensures
        ({
            let after = apply(store, ActionView::Introduce { word, confidence, definition });
            &&& find(after, word) is Some
            &&& after[find(after, word).unwrap()] == EntryView {
                word,
                score: confidence.spec_weight(),
                definition,
            }
        }),
{
    let after = apply(store, ActionView::Introduce { word, confidence, definition });
    lemma_find(store, word);
    let at = match find(store, word) {
        Some(i) => i,
        None => store.len() as int,
    };
    assert(after[at].word == word);
    assert forall|j: int| 0 <= j < at implies (#[trigger] after[j]).word != word by {
        assert(store[j].word != word);
    }
    lemma_find_first(after, word, at);
}

/// A practice of a known word moves its score a quarter of the way to the
/// weight of the answer, and leaves its definition as it was.
pub proof fn lemma_practice_blends(
    store: Seq<EntryView>,
    word: Seq<char>,
    correctness: crate::level::Correctness,
)
    requires
        find(store, word) is Some,
    ensures
        ({
            let before = store[find(store, word).unwrap()];
            let after = apply(store, ActionView::Practice { word, correctness });
            &&& find(after, word) == find(store, word)
            &&& after[find(after, word).unwrap()] == EntryView {
                word,
                score: blend(before.score, correctness.spec_weight()),
                definition: before.definition,
            }
        }),
{
    let after = apply(store, ActionView::Practice { word, correctness });
    lemma_find(store, word);
    let at = find(store, word).unwrap();
    assert(after[at].word == word);
    assert forall|j: int| 0 <= j < at implies (#[trigger] after[j]).word != word by {
        assert(store[j].word != word);
    }
    lemma_find_first(after, word, at);
}

/// Practicing a known word several times with one outcome blends the weight
/// of that outcome into its score as many times, and changes nothing else.
pub proof fn lemma_repeated_practice(
    store: Seq<EntryView>,
    word: Seq<char>,
    correctness: crate::level::Correctness,
    times: nat,
)
    requires
        find(store, word) is Some,
    ensures
        ({
            let at = find(store, word).unwrap();
            apply_times(store, ActionView::Practice { word, correctness }, times) == store.update(
                at,
                EntryView {
                    word,
                    score: practiced(store[at].score, correctness.spec_weight(), times),
                    definition: store[at].definition,
                },
            )
        }),
    decreases times,
{
    let at = find(store, word).unwrap();
    let action = ActionView::Practice { word, correctness };
    lemma_find(store, word);
    if times == 0 {
        assert(store.update(at, store[at]) =~= store);
    } else {
        let earlier = apply_times(store, action, (times - 1) as nat);
        lemma_repeated_practice(store, word, correctness, (times - 1) as nat);
        assert(earlier[at].word == word);
        assert forall|j: int| 0 <= j < at implies (#[trigger] earlier[j]).word != word by {
            assert(store[j].word != word);
        }
        lemma_find_first(earlier, word, at);
        assert(apply(earlier, action) =~= store.update(
            at,
            EntryView {
                word,
                score: practiced(store[at].score, correctness.spec_weight(), times),
                definition: store[at].definition,
            },
        ));
    }
}

} // verus!

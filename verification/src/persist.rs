//! The log as it is persisted: a text with one encoded event on each line.
//!
//! Reading is forgiving about white space and strict about everything else:
//! every line is trimmed, blank lines are skipped, and one line that fails
//! makes the whole text fail.

use vstd::prelude::*;
use crate::action::ActionView;
use crate::error::LoadError;
use crate::store::{
    accepts, apply, lemma_find, lemma_find_same_words, replay, same_words, sound, EntryView,
};
use crate::text::{
    is_whitespace, join, lemma_join_ends, lemma_join_without, lemma_leading_whitespace,
    lemma_split_around_separator, lemma_split_join, lemma_split_without_separator,
    lemma_trailing_whitespace, lemma_trailing_whitespace_after, lemma_trailing_whitespace_ends,
    split, trailing_whitespace, trim, trim_end,
};

verus! {

/// The events that the lines of a persisted log hold, or the reason why they
/// cannot be loaded. Lines are taken in order: a line that is blank once it is
/// trimmed is skipped, any other line has to decode, and a practice has to be
/// of a word that an earlier line introduces. The first line that fails
/// decides the error.
pub open spec fn load_lines(lines: Seq<Seq<char>>) -> Result<Seq<ActionView>, LoadError>
    decreases lines.len(),
{
    if lines.len() == 0 {
        Ok(Seq::empty())
    } else {
        match load_lines(lines.drop_last()) {
            Err(e) => Err(e),
            Ok(log) => {
                let line = trim(lines.last());
                if line.len() == 0 {
                    Ok(log)
                } else {
                    match ActionView::decode(line) {
                        None => Err(LoadError::Malformed),
                        Some(action) => if accepts(replay(log), action) {
                            Ok(log.push(action))
                        } else {
                            Err(LoadError::PracticeOnUnknownWord)
                        },
                    }
                }
            },
        }
    }
}

/// The events that a persisted log holds, or the reason why it cannot be
/// loaded: those of its lines, which end at each line feed.
pub open spec fn load_text(text: Seq<char>) -> Result<Seq<ActionView>, LoadError> {
    load_lines(split(text, '\n'))
}

/// The lines that encode the events of `log`, in order.
pub open spec fn encoded_lines(log: Seq<ActionView>) -> Seq<Seq<char>> {
    Seq::new(log.len(), |i: int| log[i].encode())
}

/// The persisted form of `log`: the lines that encode its events, with a line
/// feed between each two.
pub open spec fn save_text(log: Seq<ActionView>) -> Seq<char> {
    join(encoded_lines(log), '\n')
}

/// The event as it comes back from a persisted log: an introduction has lost
/// the white space at the end of its definition, with the line's.
pub open spec fn as_loaded(action: ActionView) -> ActionView {
    match action {
        ActionView::Introduce { word, confidence, definition } => ActionView::Introduce {
            word,
            confidence,
            definition: trim_end(definition),
        },
        ActionView::Practice { .. } => action,
    }
}

/// The log as it comes back from its persisted form.
pub open spec fn loaded(log: Seq<ActionView>) -> Seq<ActionView> {
    Seq::new(log.len(), |i: int| as_loaded(log[i]))
}

/// The store with the white space taken from the end of every definition.
pub open spec fn trimmed_definitions(store: Seq<EntryView>) -> Seq<EntryView> {
    Seq::new(
        store.len(),
        |i: int|
            EntryView {
                word: store[i].word,
                score: store[i].score,
                definition: trim_end(store[i].definition),
            },
    )
}

/// Whether an event comes back from a persisted log as it went in: it is
/// well-formed, and its definition, if it has one, does not end with white
/// space.
pub open spec fn persistable(action: ActionView) -> bool {
    &&& action.well_formed()
    &&& action matches ActionView::Introduce { definition, .. } ==> trailing_whitespace(definition)
        == 0
}

/// Once the first lines of a log fail to load, the whole log fails in the
/// same way.
pub proof fn lemma_load_stops_at_first_error(first: Seq<Seq<char>>, lines: Seq<Seq<char>>)
    requires
        first.len() <= lines.len(),
        first == lines.take(first.len() as int),
    ensures
        load_lines(first) is Err ==> load_lines(lines) == load_lines(first),
    decreases lines.len(),
{
    if first.len() < lines.len() {
        assert(lines.drop_last().take(first.len() as int) =~= first);
        lemma_load_stops_at_first_error(first, lines.drop_last());
    } else {
        assert(first =~= lines);
    }
}

/// Blank lines are skipped: a line that is blank once it is trimmed can be
/// put anywhere among the lines of a log, or taken away, and what the log
/// loads to stays the same.
pub proof fn lemma_blank_line_skipped(
    before: Seq<Seq<char>>,
    blank: Seq<char>,
    after: Seq<Seq<char>>,
)
    requires
        trim(blank).len() == 0,
    ensures
        load_lines(before.push(blank) + after) == load_lines(before + after),
    decreases after.len(),
{
    if after.len() == 0 {
        assert(before.push(blank) + after =~= before.push(blank));
        assert(before.push(blank).drop_last() =~= before);
        assert(before + after =~= before);
    } else {
        let with = before.push(blank) + after;
        let without = before + after;
        assert(with.drop_last() =~= before.push(blank) + after.drop_last());
        assert(without.drop_last() =~= before + after.drop_last());
        assert(with.last() == without.last());
        lemma_blank_line_skipped(before, blank, after.drop_last());
    }
}

/// Blank lines in a text are skipped: a line that is blank once it is
/// trimmed, put between two parts of a persisted log, changes nothing of what
/// the log loads to.
pub proof fn lemma_blank_line_in_text_skipped(
    before: Seq<char>,
    blank: Seq<char>,
    after: Seq<char>,
)
    requires
        !blank.contains('\n'),
        trim(blank).len() == 0,
    ensures
        load_text((before.push('\n') + blank).push('\n') + after) == load_text(
            before.push('\n') + after,
        ),
{
    lemma_split_around_separator(before.push('\n') + blank, after, '\n');
    lemma_split_around_separator(before, blank, '\n');
    lemma_split_around_separator(before, after, '\n');
    lemma_split_without_separator(blank, '\n');
    assert(split(before, '\n') + seq![blank] =~= split(before, '\n').push(blank));
    lemma_blank_line_skipped(split(before, '\n'), blank, split(after, '\n'));
}

/// A persistable event comes back as it went in.
pub proof fn lemma_persistable_as_loaded(action: ActionView)
    requires
        persistable(action),
    ensures
        as_loaded(action) == action,
{
    if let ActionView::Introduce { definition, .. } = action {
        assert(trim_end(definition) =~= definition);
    }
}

/// The line that encodes a well-formed event holds no line feed and is not
/// blank. Trimmed, it is the line that encodes the event as it comes back,
/// and decodes to it.
pub proof fn lemma_encoded_line(action: ActionView)
    requires
        action.well_formed(),
    ensures
        !action.encode().contains('\n'),
        trim(action.encode()).len() > 0,
        trim(action.encode()) == as_loaded(action).encode(),
        ActionView::decode(trim(action.encode())) == Some(as_loaded(action)),
{
    let fields = action.fields();
    let line = action.encode();
    reveal_strlit("introduce");
    reveal_strlit("practice");
    assert("introduce"@.len() == 9);
    assert("practice"@.len() == 8);
    let word = action.word();
    assert(!word.contains('\n')) by {
        if word.contains('\n') {
            let k = choose|k: int| 0 <= k < word.len() && word[k] == '\n';
            assert(is_whitespace(word[k]));
        }
    }
    match action {
        ActionView::Introduce { confidence, definition, .. } => {
            confidence.lemma_label();
            let label = confidence.label();
            assert(!label.contains('\n')) by {
                if label.contains('\n') {
                    let k = choose|k: int| 0 <= k < label.len() && label[k] == '\n';
                    assert(is_whitespace(label[k]));
                }
            }
            lemma_join_without(fields, '$', '\n');
            lemma_join_ends(fields, '$');
            lemma_leading_whitespace(line, 0);
            let head = join(fields.drop_last(), '$').push('$');
            let kept = trim_end(definition);
            assert(line == head + definition);
            lemma_trailing_whitespace_after(head, definition);
            lemma_trailing_whitespace_ends(definition);
            assert(trim(line) =~= head + kept);
            assert(as_loaded(action).fields().drop_last() =~= fields.drop_last());
            assert(as_loaded(action).encode() == head + kept);
            assert(!kept.contains('$')) by {
                if kept.contains('$') {
                    let k = choose|k: int| 0 <= k < kept.len() && kept[k] == '$';
                    assert(definition[k] == '$');
                }
            }
        },
        ActionView::Practice { correctness, .. } => {
            correctness.lemma_label();
            let label = correctness.label();
            assert(!label.contains('\n')) by {
                if label.contains('\n') {
                    let k = choose|k: int| 0 <= k < label.len() && label[k] == '\n';
                    assert(is_whitespace(label[k]));
                }
            }
            assert(!is_whitespace(label.last())) by {
                if is_whitespace(label.last()) {
                    assert(is_whitespace(label[label.len() - 1]));
                }
            }
            lemma_join_without(fields, '$', '\n');
            lemma_join_ends(fields, '$');
            lemma_leading_whitespace(line, 0);
            lemma_trailing_whitespace(line, 0);
            assert(trim(line) =~= line);
        },
    }
    as_loaded(action).lemma_decode_encode();
}

/// The log as it comes back from its persisted form leads to the same store
/// but for the white space at the end of definitions: the same words at the
/// same places, with the same scores. It is sound if the log is.
pub proof fn lemma_loaded_replay(log: Seq<ActionView>)
    ensures
        replay(loaded(log)) == trimmed_definitions(replay(log)),
        same_words(replay(log), replay(loaded(log))),
        sound(log) ==> sound(loaded(log)),
    decreases log.len(),
{
    if log.len() > 0 {
        let init = log.drop_last();
        let last = log.last();
        lemma_loaded_replay(init);
        assert(loaded(log).drop_last() =~= loaded(init));
        assert(loaded(log).last() == as_loaded(last));
        let before = replay(init);
        let back = replay(loaded(init));
        lemma_find_same_words(before, back, last.word());
        lemma_find(before, last.word());
        assert(as_loaded(last).word() == last.word());
        assert(apply(back, as_loaded(last)) =~= trimmed_definitions(apply(before, last)));
    } else {
        assert(loaded(log) =~= Seq::<ActionView>::empty());
        assert(trimmed_definitions(replay(log)) =~= Seq::<EntryView>::empty());
    }
}

/// The lines that encode a sound log of well-formed events load to the log
/// as it comes back.
pub proof fn lemma_load_encoded_lines(log: Seq<ActionView>)
    requires
        sound(log),
        forall|i: int| 0 <= i < log.len() ==> (#[trigger] log[i]).well_formed(),
    ensures
        load_lines(encoded_lines(log)) == Ok::<_, LoadError>(loaded(log)),
    decreases log.len(),
{
    if log.len() > 0 {
        let init = log.drop_last();
        let last = log.last();
        assert forall|i: int| 0 <= i < init.len() implies (#[trigger] init[i]).well_formed() by {
            assert(init[i] == log[i]);
        }
        lemma_load_encoded_lines(init);
        assert(encoded_lines(log).drop_last() =~= encoded_lines(init));
        assert(encoded_lines(log).last() == last.encode());
        assert(log[log.len() - 1].well_formed());
        lemma_encoded_line(last);
        lemma_loaded_replay(init);
        lemma_find_same_words(replay(init), replay(loaded(init)), last.word());
        assert(accepts(replay(loaded(init)), as_loaded(last)));
        assert(loaded(init).push(as_loaded(last)) =~= loaded(log));
    } else {
        assert(encoded_lines(log) =~= Seq::<Seq<char>>::empty());
        assert(loaded(log) =~= Seq::<ActionView>::empty());
    }
}

/// Loading what was saved: the persisted form of a sound log of well-formed
/// events loads, and gives the log as it comes back, that is, the same events
/// but for the white space at the end of definitions.
pub proof fn lemma_load_save(log: Seq<ActionView>)
    requires
        sound(log),
        forall|i: int| 0 <= i < log.len() ==> (#[trigger] log[i]).well_formed(),
    ensures
        load_text(save_text(log)) == Ok::<_, LoadError>(loaded(log)),
{
    let lines = encoded_lines(log);
    if log.len() == 0 {
        assert(lines =~= Seq::<Seq<char>>::empty());
        assert(save_text(log) =~= Seq::<char>::empty());
        let only = split(save_text(log), '\n');
        assert(only.drop_last() =~= Seq::<Seq<char>>::empty());
        assert(load_lines(only.drop_last()) == Ok::<_, LoadError>(Seq::<ActionView>::empty()));
        assert(trim(only.last()).len() == 0);
        assert(loaded(log) =~= Seq::<ActionView>::empty());
    } else {
        assert forall|i: int| 0 <= i < lines.len() implies !(#[trigger] lines[i]).contains(
            '\n',
        ) by {
            assert(log[i].well_formed());
            lemma_encoded_line(log[i]);
        }
        lemma_split_join(lines, '\n');
        lemma_load_encoded_lines(log);
    }
}

/// Loading undoes saving: the persisted form of a sound log of persistable
/// events loads to that very log.
pub proof fn lemma_load_save_exact(log: Seq<ActionView>)
    requires
        sound(log),
        forall|i: int| 0 <= i < log.len() ==> persistable(#[trigger] log[i]),
    ensures
        load_text(save_text(log)) == Ok::<_, LoadError>(log),
{
    assert forall|i: int| 0 <= i < log.len() implies (#[trigger] log[i]).well_formed() by {
        assert(persistable(log[i]));
    }
    lemma_load_save(log);
    assert forall|i: int| 0 <= i < log.len() implies loaded(log)[i] == log[i] by {
        assert(persistable(log[i]));
        lemma_persistable_as_loaded(log[i]);
    }
    assert(loaded(log) =~= log);
}

} // verus!

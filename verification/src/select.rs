//! Choosing what to practice: the words with the lowest scores go first, once
//! each score has been shifted by a small random amount, the fuzz, so that
//! words that are known about equally well do not always come in one order.

use vstd::prelude::*;
use vstd::relations::injective_on;
use vstd::set_lib::{
    lemma_int_range, lemma_len_subset, lemma_map_size, lemma_subset_equality, set_int_range,
};
use rand::Rng;
use rand::rngs::ThreadRng;
use crate::store::EntryView;

verus! {

/// Half the width of the fuzz, 0.05 of `SCORE_ONE`: the fuzz of a score is at
/// least `-FUZZ_SPAN` and less than `FUZZ_SPAN`.
pub const FUZZ_SPAN: i64 = 50_000_000;

/// Whether item `i` goes before item `j`: its key is lower, or the keys are
/// equal and it stands first.
pub open spec fn precedes(keys: Seq<i64>, i: int, j: int) -> bool {
    keys[i] < keys[j] || (keys[i] == keys[j] && i < j)
}

/// The items that go before item `i`.
pub open spec fn predecessors(keys: Seq<i64>, i: int) -> Set<int> {
    Set::new(|j: int| 0 <= j < keys.len() && precedes(keys, j, i))
}

/// The place of item `i` when the items are put in order: the number of items
/// that go before it.
pub open spec fn rank(keys: Seq<i64>, i: int) -> nat {
    predecessors(keys, i).len()
}

/// The item that has place `r` when the items are put in order.
pub open spec fn ranked(keys: Seq<i64>, r: int) -> int {
    choose|i: int| 0 <= i < keys.len() && rank(keys, i) == r
}

/// The first `count` items in order, or all of them if there are fewer.
pub open spec fn selection(keys: Seq<i64>, count: nat) -> Seq<int> {
    Seq::new(
        if count <= keys.len() {
            count
        } else {
            keys.len()
        },
        |r: int| ranked(keys, r),
    )
}

/// Whether every fuzz value lies within the span.
pub open spec fn within_span(fuzz: Seq<i64>) -> bool {
    forall|i: int| 0 <= i < fuzz.len() ==> -FUZZ_SPAN <= #[trigger] fuzz[i] < FUZZ_SPAN
}

/// The keys by which the words of `store` are put in order: for each word its
/// score plus its fuzz.
pub open spec fn fuzzed_scores(store: Seq<EntryView>, fuzz: Seq<i64>) -> Seq<i64> {
    Seq::new(store.len(), |i: int| (store[i].score + fuzz[i]) as i64)
}

/// The practice set: word and definition of the first `count` words of
/// `store`, or of all if there are fewer, in the order of their fuzzed scores,
/// lowest first.
pub open spec fn practice_set(store: Seq<EntryView>, fuzz: Seq<i64>, count: nat) -> Seq<
    (Seq<char>, Seq<char>),
> {
    selection(fuzzed_scores(store, fuzz), count).map_values(
        |i: int| (store[i].word, store[i].definition),
    )
}

/// What the pairs of strings in `set` stand for.
pub open spec fn pairs(set: Seq<(String, String)>) -> Seq<(Seq<char>, Seq<char>)> {
    Seq::new(set.len(), |i: int| (set[i].0@, set[i].1@))
}

/// The items that go before an item are finitely many, fewer than there are
/// items.
pub proof fn lemma_rank_bound(keys: Seq<i64>, i: int)
    requires
        0 <= i < keys.len(),
    ensures
        predecessors(keys, i).finite(),
        rank(keys, i) < keys.len(),
{
    let all = set_int_range(0, keys.len() as int);
    lemma_int_range(0, keys.len() as int);
    assert(predecessors(keys, i).subset_of(all.remove(i)));
    lemma_len_subset(predecessors(keys, i), all.remove(i));
}

/// An item that goes before another has the lower rank.
pub proof fn lemma_rank_increases(keys: Seq<i64>, i: int, j: int)
    requires
        0 <= i < keys.len(),
        0 <= j < keys.len(),
        precedes(keys, i, j),
    ensures
        rank(keys, i) < rank(keys, j),
{
    lemma_rank_bound(keys, j);
    assert(predecessors(keys, i).subset_of(predecessors(keys, j).remove(i)));
    lemma_len_subset(predecessors(keys, i), predecessors(keys, j).remove(i));
}

/// No two items share a rank, so the ranks put the items in one order.
pub proof fn lemma_rank_injective(keys: Seq<i64>, i: int, j: int)
    requires
        0 <= i < keys.len(),
        0 <= j < keys.len(),
        i != j,
    ensures
        rank(keys, i) != rank(keys, j),
{
    if precedes(keys, i, j) {
        lemma_rank_increases(keys, i, j);
    } else {
        lemma_rank_increases(keys, j, i);
    }
}

/// The item of rank `r` is the one whose rank is `r`.
pub proof fn lemma_ranked(keys: Seq<i64>, i: int)
    requires
        0 <= i < keys.len(),
    ensures
        ranked(keys, rank(keys, i) as int) == i,
{
    let found = ranked(keys, rank(keys, i) as int);
    if found != i {
        lemma_rank_injective(keys, found, i);
    }
}

/// Every place is taken: among `n` items there is, for each `r` below `n`,
/// an item of rank `r`, and `ranked` names it.
pub proof fn lemma_rank_onto(keys: Seq<i64>, r: int)
    requires
        0 <= r < keys.len(),
    ensures
        0 <= ranked(keys, r) < keys.len(),
        rank(keys, ranked(keys, r)) == r,
{
    let n = keys.len() as int;
    let items = set_int_range(0, n);
    let place = |i: int| rank(keys, i) as int;
    lemma_int_range(0, n);
    assert(injective_on(place, items)) by {
        assert forall|i: int, j: int|
            items.contains(i) && items.contains(j) && #[trigger] place(i) == #[trigger] place(
                j,
            ) implies i == j by {
            if i != j {
                lemma_rank_injective(keys, i, j);
            }
        }
    }
    let places = items.map(place);
    lemma_map_size(items, places, place);
    assert(places.subset_of(items)) by {
        assert forall|p: int| places.contains(p) implies items.contains(p) by {
            let i = choose|i: int| items.contains(i) && place(i) == p;
            lemma_rank_bound(keys, i);
        }
    }
    lemma_subset_equality(places, items);
    assert(items.contains(r));
    assert(places.contains(r));
    let i = choose|i: int| items.contains(i) && place(i) == r;
    assert(0 <= i < keys.len() && rank(keys, i) == r);
}

/// What the selection is, in the familiar terms of sorting: it holds items,
/// none of them twice, in ascending order of their keys, and every item that
/// it leaves out has a key that is at least as high as each key in it.
pub proof fn lemma_selection_sorted(keys: Seq<i64>, count: nat)
    ensures
        ({
            let chosen = selection(keys, count);
            &&& chosen.len() == if count <= keys.len() {
                count
            } else {
                keys.len()
            }
            &&& forall|r: int| 0 <= r < chosen.len() ==> 0 <= #[trigger] chosen[r] < keys.len()
            &&& forall|r: int, s: int|
                0 <= r < s < chosen.len() ==> #[trigger] chosen[r] != #[trigger] chosen[s]
                    && keys[chosen[r]] <= keys[chosen[s]]
            &&& forall|r: int, i: int|
                0 <= r < chosen.len() && 0 <= i < keys.len() && !chosen.contains(i) ==> keys[(
                #[trigger] chosen[r])] <= #[trigger] keys[i]
        }),
{
    let chosen = selection(keys, count);
    assert forall|r: int| 0 <= r < chosen.len() implies 0 <= #[trigger] chosen[r] < keys.len()
        && rank(keys, chosen[r]) == r by {
        lemma_rank_onto(keys, r);
    }
    assert forall|r: int, s: int| 0 <= r < s < chosen.len() implies #[trigger] chosen[r]
        != #[trigger] chosen[s] && keys[chosen[r]] <= keys[chosen[s]] by {
        lemma_rank_onto(keys, r);
        lemma_rank_onto(keys, s);
        if precedes(keys, chosen[s], chosen[r]) {
            lemma_rank_increases(keys, chosen[s], chosen[r]);
        }
    }
    assert forall|r: int, i: int|
        0 <= r < chosen.len() && 0 <= i < keys.len() && !chosen.contains(i) implies keys[(
    #[trigger] chosen[r])] <= #[trigger] keys[i] by {
        lemma_rank_onto(keys, r);
        lemma_rank_bound(keys, i);
        if rank(keys, i) < chosen.len() {
            lemma_ranked(keys, i);
            assert(chosen[rank(keys, i) as int] == i);
        }
        if precedes(keys, i, chosen[r]) {
            lemma_rank_increases(keys, i, chosen[r]);
        }
    }
}

/// A word whose score is lower than another's by the whole width of the fuzz
/// goes before it, whatever the fuzz.
pub proof fn lemma_clear_gap_decides(
    store: Seq<EntryView>,
    fuzz: Seq<i64>,
    low: int,
    high: int,
)
    requires
        fuzz.len() == store.len(),
        within_span(fuzz),
        crate::store::scores_bounded(store),
        0 <= low < store.len(),
        0 <= high < store.len(),
        store[low].score + 2 * FUZZ_SPAN <= store[high].score,
    ensures
        rank(fuzzed_scores(store, fuzz), low) < rank(fuzzed_scores(store, fuzz), high),
{
    let keys = fuzzed_scores(store, fuzz);
    assert(keys[low] == store[low].score + fuzz[low]);
    assert(keys[high] == store[high].score + fuzz[high]);
    lemma_rank_increases(keys, low, high);
}

/// Trusted: makes the type `rand::rngs::ThreadRng` known, the handle to the
/// random number generator of the current thread. Nothing is known of what
/// is inside.
#[verifier::external_type_specification]
#[verifier::external_body]
pub struct ExThreadRng(ThreadRng);

/// Trusted: `rand::thread_rng` hands out the random number generator of the
/// current thread, which the operating system seeds. Nothing is claimed of
/// it. No argument decides whether it panics: it does so only if the
/// operating system gives no entropy when the generator is first used.
pub assume_specification[ rand::thread_rng ]() -> (rng: ThreadRng);

/// A random number that is at least `low` and less than `high`.
///
/// Trusted: stands for `Rng::gen_range` of the crate `rand` on the half-open
/// range from `low` to `high`, which draws a number from that range and
/// panics if the range is empty. Which number comes is left open. Apart from
/// the empty range, which `requires` leaves out, the call panics only if the
/// operating system gives no entropy when the generator is first used or
/// reseeded, which no argument decides. A caller who wants to rule that out
/// draws the fuzz elsewhere and hands it to `Codex::practice_set_with_fuzz`.
#[verifier::external_body]
fn draw_between(rng: &mut ThreadRng, low: i64, high: i64) -> (drawn: i64)
    requires
        low < high,
    ensures
        low <= drawn < high,
{
    rng.gen_range(low..high)
}

/// Fresh fuzz for `count` words, each value drawn on its own.
pub fn draw_fuzz(count: usize) -> (fuzz: Vec<i64>)
    ensures
        fuzz@.len() == count,
        within_span(fuzz@),
{
    let mut rng = rand::thread_rng();
    let mut fuzz: Vec<i64> = Vec::new();
    while fuzz.len() < count
        invariant
            fuzz@.len() <= count,
            within_span(fuzz@),
        decreases count - fuzz.len(),
    {
        let drawn = draw_between(&mut rng, -FUZZ_SPAN, FUZZ_SPAN);
        fuzz.push(drawn);
    }
    fuzz
}

/// Whether every value of `fuzz` lies within the span.
pub fn fits_span(fuzz: &Vec<i64>) -> (fits: bool)
    ensures
        fits == within_span(fuzz@),
{
    let mut i: usize = 0;
    while i < fuzz.len()
        invariant
            i <= fuzz.len(),
            forall|k: int| 0 <= k < i ==> -FUZZ_SPAN <= #[trigger] fuzz@[k] < FUZZ_SPAN,
        decreases fuzz.len() - i,
    {
        if fuzz[i] < -FUZZ_SPAN || fuzz[i] >= FUZZ_SPAN {
            return false;
        }
        i = i + 1;
    }
    true
}

/// The first `count` items in the order of their keys, lowest first, or all of
/// them if there are fewer. Of two items with one key the one that stands
/// first goes first.
pub fn selection_order(keys: &Vec<i64>, count: usize) -> (order: Vec<usize>)
    ensures
        order@.len() == selection(keys@, count as nat).len(),
        forall|r: int|
            0 <= r < order@.len() ==> #[trigger] order@[r] == selection(keys@, count as nat)[r],
        forall|r: int| 0 <= r < order@.len() ==> (#[trigger] order@[r]) < keys@.len(),
{
    let n = keys.len();
    let take = if count < n {
        count
    } else {
        n
    };
    let mut picked: Vec<bool> = Vec::new();
    while picked.len() < n
        invariant
            picked@.len() <= n,
            forall|j: int| 0 <= j < picked@.len() ==> !picked@[j],
        decreases n - picked.len(),
    {
        picked.push(false);
    }
    let mut order: Vec<usize> = Vec::new();
    let ghost mut chosen: Set<int> = Set::empty();
    while order.len() < take
        invariant
            n == keys@.len(),
            take <= n,
            picked@.len() == n,
            order@.len() <= take,
            chosen.finite(),
            chosen.len() == order@.len(),
            forall|j: int| 0 <= j < n ==> (picked@[j] <==> chosen.contains(j)),
            forall|j: int| chosen.contains(j) ==> 0 <= j < n,
            forall|r: int|
                0 <= r < order@.len() ==> (#[trigger] order@[r]) < n && rank(
                    keys@,
                    order@[r] as int,
                ) == r,
            forall|p: int, j: int|
                chosen.contains(p) && 0 <= j < n && !chosen.contains(j) ==> precedes(keys@, p, j),
        decreases take - order.len(),
    {
        let mut best: usize = 0;
        let mut have = false;
        let mut j: usize = 0;
        while j < n
            invariant
                n == keys@.len(),
                picked@.len() == n,
                j <= n,
                have ==> best < j && !picked@[best as int],
                forall|u: int|
                    0 <= u < j && !picked@[u] ==> have && (u == best || precedes(
                        keys@,
                        best as int,
                        u,
                    )),
            decreases n - j,
        {
            if !picked[j] && (!have || keys[j] < keys[best]) {
                best = j;
                have = true;
            }
            j = j + 1;
        }
        proof {
            if !have {
                lemma_int_range(0, n as int);
                assert(set_int_range(0, n as int).subset_of(chosen));
                lemma_len_subset(set_int_range(0, n as int), chosen);
            }
            assert(predecessors(keys@, best as int) =~= chosen);
        }
        picked.set(best, true);
        order.push(best);
        proof {
            chosen = chosen.insert(best as int);
        }
    }
    proof {
        assert forall|r: int| 0 <= r < order@.len() implies #[trigger] order@[r] == selection(
            keys@,
            count as nat,
        )[r] by {
            lemma_ranked(keys@, order@[r] as int);
        }
    }
    order
}

} // verus!

use rust_vocab::score::{update_score, SCORE_ONE};
use rust_vocab::{Confidence, Correctness};

fn as_float(score: u64) -> f64 {
    score as f64 / SCORE_ONE as f64
}

#[test]
fn one_is_a_billion_units() {
    assert_eq!(SCORE_ONE, 1_000_000_000);
    assert_eq!(as_float(SCORE_ONE), 1.0);
}

#[test]
fn weights_as_fractions_of_one() {
    assert_eq!(as_float(Confidence::Known.weight()), 0.9);
    assert_eq!(as_float(Confidence::PartiallyKnown.weight()), 0.5);
    assert_eq!(as_float(Confidence::Unknown.weight()), 0.1);
    assert_eq!(as_float(Correctness::Correct.weight()), 1.0);
    assert_eq!(as_float(Correctness::PartiallyCorrect.weight()), 0.5);
    assert_eq!(as_float(Correctness::Incorrect.weight()), 0.0);
}

#[test]
fn update_is_a_quarter_of_the_new_and_three_quarters_of_the_old() {
    assert_eq!(update_score(900_000_000, 0), 675_000_000);
    assert_eq!(update_score(100_000_000, 1_000_000_000), 325_000_000);
    assert_eq!(update_score(500_000_000, 500_000_000), 500_000_000);
    assert_eq!(update_score(0, 1_000_000_000), 250_000_000);
    assert_eq!(update_score(1_000_000_000, 0), 750_000_000);
    assert_eq!(update_score(0, 0), 0);
    assert_eq!(update_score(1_000_000_000, 1_000_000_000), 1_000_000_000);
}

#[test]
fn update_rounds_to_the_nearest_whole_unit() {
    assert_eq!(update_score(0, 1), 0);
    assert_eq!(update_score(0, 2), 1);
    assert_eq!(update_score(0, 3), 1);
    assert_eq!(update_score(0, 4), 1);
    assert_eq!(update_score(0, 5), 1);
    assert_eq!(update_score(0, 6), 2);
    assert_eq!(update_score(1, 1), 1);
    assert_eq!(update_score(3, 0), 2);
    assert_eq!(update_score(4, 0), 3);
    assert_eq!(update_score(5, 0), 4);
    assert_eq!(update_score(7, 0), 5);
}

#[test]
fn update_never_takes_a_score_to_zero() {
    assert_eq!(update_score(1, 0), 1);
    assert_eq!(update_score(2, 0), 2);
    for score in 1..=1000 {
        assert!(update_score(score, 0) > 0);
        assert!(update_score(score, 0) <= score);
        assert_eq!(update_score(score, 0) < score, score >= 3);
    }
}

#[test]
fn update_never_takes_a_score_to_one() {
    assert_eq!(update_score(SCORE_ONE - 1, SCORE_ONE), SCORE_ONE - 1);
    assert_eq!(update_score(SCORE_ONE - 2, SCORE_ONE), SCORE_ONE - 1);
    for gap in 1..=1000 {
        let score = SCORE_ONE - gap;
        assert!(update_score(score, SCORE_ONE) < SCORE_ONE);
        assert!(update_score(score, SCORE_ONE) >= score);
        assert_eq!(update_score(score, SCORE_ONE) > score, gap >= 2);
    }
}

#[test]
fn update_does_not_overflow() {
    assert_eq!(update_score(u64::MAX, u64::MAX), u64::MAX);
    assert_eq!(update_score(u64::MAX, 0), u64::MAX / 4 * 3 + 2);
    assert_eq!(update_score(0, u64::MAX), u64::MAX / 4 + 1);
}

#[test]
fn known_then_incorrect_is_0_675() {
    let score = update_score(Confidence::Known.weight(), Correctness::Incorrect.weight());
    assert_eq!(score, 675_000_000);
    assert_eq!(as_float(score), 0.675);
    assert_eq!(as_float(score), 0.25 * 0.0 + 0.75 * 0.9);
}

#[test]
fn repeated_correct_practice_rises_and_stays_below_one() {
    let mut score = Confidence::Unknown.weight();
    for _ in 0..60 {
        let next = update_score(score, Correctness::Correct.weight());
        assert!(next > score);
        assert!(next < SCORE_ONE);
        score = next;
    }
    for _ in 0..200 {
        let next = update_score(score, Correctness::Correct.weight());
        assert!(next >= score);
        assert!(next < SCORE_ONE);
        assert_eq!(next > score, score + 2 <= SCORE_ONE);
        score = next;
    }
    assert_eq!(score, SCORE_ONE - 1);
}

#[test]
fn repeated_incorrect_practice_falls_and_stays_above_zero() {
    let mut score = Confidence::Known.weight();
    for _ in 0..60 {
        let next = update_score(score, Correctness::Incorrect.weight());
        assert!(next < score);
        assert!(next > 0);
        score = next;
    }
    for _ in 0..200 {
        let next = update_score(score, Correctness::Incorrect.weight());
        assert!(next <= score);
        assert!(next > 0);
        assert_eq!(next < score, score >= 3);
        score = next;
    }
    assert_eq!(score, 2);
}

#[test]
fn partially_correct_practice_moves_towards_a_half() {
    let mut low = Confidence::Unknown.weight();
    let mut high = Confidence::Known.weight();
    for _ in 0..40 {
        let next_low = update_score(low, Correctness::PartiallyCorrect.weight());
        let next_high = update_score(high, Correctness::PartiallyCorrect.weight());
        assert!(low <= next_low && next_low <= 500_000_000);
        assert!(high >= next_high && next_high >= 500_000_000);
        low = next_low;
        high = next_high;
    }
}

#[test]
fn seventy_correct_practices_raise_an_unknown_word() {
    let mut score = Confidence::Unknown.weight();
    let mut raised = 0;
    for _ in 0..1000 {
        let next = update_score(score, Correctness::Correct.weight());
        assert!(next < SCORE_ONE);
        if next > score {
            raised += 1;
        }
        score = next;
    }
    assert_eq!(raised, 70);
    assert_eq!(score, SCORE_ONE - 1);
}

#[test]
fn seventy_incorrect_practices_lower_a_known_word() {
    let mut score = Confidence::Known.weight();
    let mut lowered = 0;
    for _ in 0..1000 {
        let next = update_score(score, Correctness::Incorrect.weight());
        assert!(next > 0);
        if next < score {
            lowered += 1;
        }
        score = next;
    }
    assert_eq!(lowered, 70);
    assert_eq!(score, 2);
}

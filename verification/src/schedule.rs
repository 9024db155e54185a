//! The spaced-repetition scheduling policy.
//!
//! A card carries a proficiency level (an integer, at least 1). After a
//! review, the level moves up on a correct answer and down (floored at 1)
//! on an incorrect one, and the card's next review date is today plus the
//! interval that a fixed table assigns to the new level.

use vstd::prelude::*;

verus! {

/// The review interval, in days, for a proficiency level: the fixed table
/// 1 -> 1, 2 -> 4, 3 -> 10, 4 -> 25, 5 -> 50, and 1000 for every other level.
pub open spec fn interval_of(level: int) -> int {
    if level == 1 {
        1
    } else if level == 2 {
        4
    } else if level == 3 {
        10
    } else if level == 4 {
        25
    } else if level == 5 {
        50
    } else {
        1000
    }
}

/// The level a card moves to after a review: up by one on a correct
/// answer, down by one but never below 1 on an incorrect one.
pub open spec fn next_level_of(level: int, correct: bool) -> int {
    if correct {
        level + 1
    } else if level > 1 {
        level - 1
    } else {
        1
    }
}

/// The interval table as an executable lookup.
pub fn level_to_date(level: i32) -> (days: i32)
    ensures
        days == interval_of(level as int),
{
    match level {
        1 => 1,
        2 => 4,
        3 => 10,
        4 => 25,
        5 => 50,
        _ => 1000,
    }
}

/// The new scheduling state of a card after one review: its new level and
/// the day (as a day number) on which it is next due.
#[derive(Clone, Copy, PartialEq, Eq, Structural, Debug)]
pub struct ReviewUpdate {
    pub level: i32,
    pub next: i64,
}

/// Applies one review outcome to a card at `level` on day `today`.
///
/// The new level follows `next_level_of`; it never drops below 1. The
/// card is next due `interval_of(new level)` days after today.
pub fn apply_review(level: i32, correct: bool, today: i64) -> (r: ReviewUpdate)
    requires
        1 <= level,
        level < i32::MAX,
        today + 1000 <= i64::MAX,
    ensures
        r.level == next_level_of(level as int, correct),
        r.level >= 1,
        r.next == today + interval_of(r.level as int),
{
    let new_level: i32 = if correct {
        level + 1
    } else if level > 1 {
        level - 1
    } else {
        1
    };
    let days = level_to_date(new_level);
    ReviewUpdate { level: new_level, next: today + days as i64 }
}

/// The interval table is monotonically non-decreasing on levels 1 through 5.
pub proof fn lemma_interval_monotone(a: int, b: int)
    requires
        1 <= a <= b <= 5,
    ensures
        interval_of(a) <= interval_of(b),
{
}

} // verus!

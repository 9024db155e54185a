//! The review session logic.
//!
//! A session reviews the due cards of one deck in a random order. Each
//! card is a two-step prompt: the front is shown until an advance
//! keypress flips it, then the back is shown until the answer is graded
//! correct or incorrect, which reschedules the card. The keypress reading
//! itself is the application's; it feeds each input to `review_step` and
//! performs the action the step returns.

use crate::import::Flashcard;
use crate::schedule::{apply_review, interval_of, next_level_of, ReviewUpdate};
use rand::seq::SliceRandom;
use rand::thread_rng;
use vstd::prelude::*;

verus! {

/// Where a card's review stands: its front is showing, or it has been
/// flipped and awaits a grade.
#[derive(Clone, Copy, PartialEq, Eq, Structural, Debug)]
pub enum ReviewState {
    AwaitingFlip,
    AwaitingGrade,
}

/// One keypress, reduced to what the review loop distinguishes.
#[derive(Clone, Copy, PartialEq, Eq, Structural, Debug)]
pub enum ReviewInput {
    Advance,
    Correct,
    Incorrect,
    Other,
}

/// The grading of one card: the recall outcome to log and the card's new
/// scheduling state to persist.
#[derive(Clone, Copy, PartialEq, Eq, Structural, Debug)]
pub struct GradeResult {
    pub correct: bool,
    pub update: ReviewUpdate,
}

/// What one input causes: nothing, the flip that reveals the back, or the
/// grading that ends the card's turn.
#[derive(Clone, Copy, PartialEq, Eq, Structural, Debug)]
pub enum ReviewAction {
    Ignore,
    Reveal,
    Graded(GradeResult),
}

/// Advances one card's review by one input.
///
/// An advance keypress flips a showing card; a correct or incorrect
/// keypress grades a flipped card, rescheduling it by the scheduling
/// policy; every other input is ignored. After a grading the state is
/// ready for the next card's front.
pub fn review_step(state: ReviewState, input: ReviewInput, level: i32, today: i64) -> (r: (
    ReviewState,
    ReviewAction,
))
    requires
        1 <= level,
        level < i32::MAX,
        today + 1000 <= i64::MAX,
    ensures
        state == ReviewState::AwaitingFlip && input == ReviewInput::Advance ==> r == (
            ReviewState::AwaitingGrade,
            ReviewAction::Reveal,
        ),
        state == ReviewState::AwaitingFlip && input != ReviewInput::Advance ==> r == (
            ReviewState::AwaitingFlip,
            ReviewAction::Ignore,
        ),
        state == ReviewState::AwaitingGrade && (input == ReviewInput::Correct || input
            == ReviewInput::Incorrect) ==> {
            &&& r.0 == ReviewState::AwaitingFlip
            &&& r.1 matches ReviewAction::Graded(g)
                && g.correct == (input == ReviewInput::Correct)
                && g.update.level == next_level_of(level as int, g.correct)
                && g.update.next == today + interval_of(g.update.level as int)
        },
        state == ReviewState::AwaitingGrade && input != ReviewInput::Correct && input
            != ReviewInput::Incorrect ==> r == (ReviewState::AwaitingGrade, ReviewAction::Ignore),
{
    match state {
        ReviewState::AwaitingFlip => {
            match input {
                ReviewInput::Advance => (ReviewState::AwaitingGrade, ReviewAction::Reveal),
                _ => (ReviewState::AwaitingFlip, ReviewAction::Ignore),
            }
        },
        ReviewState::AwaitingGrade => {
            match input {
                ReviewInput::Correct => {
                    let update = apply_review(level, true, today);
                    (
                        ReviewState::AwaitingFlip,
                        ReviewAction::Graded(GradeResult { correct: true, update }),
                    )
                },
                ReviewInput::Incorrect => {
                    let update = apply_review(level, false, today);
                    (
                        ReviewState::AwaitingFlip,
                        ReviewAction::Graded(GradeResult { correct: false, update }),
                    )
                },
                _ => (ReviewState::AwaitingGrade, ReviewAction::Ignore),
            }
        },
    }
}

/// A card of deck `deck_id` is due on day `today`.
pub open spec fn due_for(c: Flashcard, deck_id: i32, today: i64) -> bool {
    c.deck_id == deck_id && c.next <= today
}

/// The cards of deck `deck_id` that are due on day `today`, in order.
pub open spec fn due_seq(cards: Seq<Flashcard>, deck_id: i32, today: i64) -> Seq<Flashcard>
    decreases cards.len(),
{
    if cards.len() == 0 {
        Seq::empty()
    } else {
        let rest = due_seq(cards.drop_last(), deck_id, today);
        if due_for(cards.last(), deck_id, today) {
            rest.push(cards.last())
        } else {
            rest
        }
    }
}

/// Is this card of deck `deck_id` due on day `today`?
pub fn is_due(card: &Flashcard, deck_id: i32, today: i64) -> (r: bool)
    ensures
        r == due_for(*card, deck_id, today),
{
    card.deck_id == deck_id && card.next <= today
}

/// Relies on rand's `SliceRandom::shuffle`: it permutes the slice in
/// place, so the cards after the call are the cards before it, reordered.
#[verifier::external_body]
fn shuffle_cards(cards: &mut Vec<Flashcard>)
    ensures
        final(cards)@.to_multiset() == old(cards)@.to_multiset(),
{
    cards.shuffle(&mut thread_rng());
}

/// The queue of one review session: the cards of deck `deck_id` that are
/// due on day `today`, in an order randomized per session.
pub fn session_queue(cards: Vec<Flashcard>, deck_id: i32, today: i64) -> (r: Vec<Flashcard>)
    ensures
        r@.to_multiset() == due_seq(cards@, deck_id, today).to_multiset(),
{
    let ghost all = cards@;
    let mut rest = cards;
    let mut picked: Vec<Flashcard> = Vec::new();
    proof {
        assert(picked@.reverse() =~= Seq::<Flashcard>::empty());
        assert(due_seq(all, deck_id, today) =~= due_seq(rest@, deck_id, today)
            + picked@.reverse());
    }
    while rest.len() > 0
        invariant
            due_seq(all, deck_id, today) == due_seq(rest@, deck_id, today) + picked@.reverse(),
        decreases rest@.len(),
    {
        let ghost old_rest = rest@;
        let ghost old_picked = picked@;
        let c = rest.pop().unwrap();
        proof {
            assert(rest@ =~= old_rest.drop_last());
            assert(c == old_rest.last());
        }
        if is_due(&c, deck_id, today) {
            picked.push(c);
            proof {
                assert(picked@.reverse() =~= seq![c] + old_picked.reverse());
                assert(due_seq(rest@, deck_id, today).push(c) + old_picked.reverse()
                    =~= due_seq(rest@, deck_id, today) + (seq![c] + old_picked.reverse()));
            }
        }
    }
    proof {
        assert(due_seq(rest@, deck_id, today) =~= Seq::<Flashcard>::empty());
        assert(due_seq(all, deck_id, today) =~= picked@.reverse());
        picked@.lemma_reverse_to_multiset();
    }
    shuffle_cards(&mut picked);
    picked
}

} // verus!

use flashcards::import::Flashcard;
use flashcards::review::{
    is_due, review_step, session_queue, ReviewAction, ReviewInput, ReviewState,
};

fn card(id: i32, deck_id: i32, next: i64) -> Flashcard {
    Flashcard {
        id,
        deck_id,
        front: b"front".to_vec(),
        back: b"back".to_vec(),
        added: 0,
        next,
        level: 1,
    }
}

#[test]
fn advance_flips_a_showing_card() {
    let (state, action) = review_step(ReviewState::AwaitingFlip, ReviewInput::Advance, 1, 100);
    assert_eq!(state, ReviewState::AwaitingGrade);
    assert_eq!(action, ReviewAction::Reveal);
}

#[test]
fn other_keys_are_ignored_before_the_flip() {
    for input in [ReviewInput::Correct, ReviewInput::Incorrect, ReviewInput::Other] {
        let (state, action) = review_step(ReviewState::AwaitingFlip, input, 1, 100);
        assert_eq!(state, ReviewState::AwaitingFlip);
        assert_eq!(action, ReviewAction::Ignore);
    }
}

#[test]
fn grading_correct_reschedules_upward() {
    let today: i64 = 200;
    let (state, action) = review_step(ReviewState::AwaitingGrade, ReviewInput::Correct, 1, today);
    assert_eq!(state, ReviewState::AwaitingFlip);
    match action {
        ReviewAction::Graded(g) => {
            assert!(g.correct);
            assert_eq!(g.update.level, 2);
            assert_eq!(g.update.next, today + 4);
        }
        _ => panic!("expected a grading"),
    }
}

#[test]
fn grading_incorrect_reschedules_downward() {
    let today: i64 = 200;
    let (state, action) = review_step(ReviewState::AwaitingGrade, ReviewInput::Incorrect, 3, today);
    assert_eq!(state, ReviewState::AwaitingFlip);
    match action {
        ReviewAction::Graded(g) => {
            assert!(!g.correct);
            assert_eq!(g.update.level, 2);
            assert_eq!(g.update.next, today + 4);
        }
        _ => panic!("expected a grading"),
    }
}

#[test]
fn other_keys_are_ignored_while_awaiting_a_grade() {
    for input in [ReviewInput::Advance, ReviewInput::Other] {
        let (state, action) = review_step(ReviewState::AwaitingGrade, input, 2, 100);
        assert_eq!(state, ReviewState::AwaitingGrade);
        assert_eq!(action, ReviewAction::Ignore);
    }
}

#[test]
fn due_on_or_before_today() {
    let today: i64 = 50;
    assert!(is_due(&card(1, 1, 49), 1, today));
    assert!(is_due(&card(1, 1, 50), 1, today));
    assert!(!is_due(&card(1, 1, 51), 1, today));
    assert!(!is_due(&card(1, 2, 49), 1, today));
}

#[test]
fn session_queue_holds_exactly_the_due_cards_of_the_deck() {
    let today: i64 = 100;
    let cards = vec![
        card(1, 1, 100),  // due
        card(2, 1, 101),  // not yet due
        card(3, 2, 50),   // other deck
        card(4, 1, 99),   // due
        card(5, 1, 1),    // due
    ];
    let queue = session_queue(cards, 1, today);
    let mut ids: Vec<i32> = queue.iter().map(|c| c.id).collect();
    ids.sort();
    assert_eq!(ids, vec![1, 4, 5]);
}

#[test]
fn session_queue_of_no_due_cards_is_empty() {
    let cards = vec![card(1, 1, 10), card(2, 1, 11)];
    let queue = session_queue(cards, 1, 9);
    assert_eq!(queue.len(), 0);
}

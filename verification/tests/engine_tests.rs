use punto::card::{Card, Color};
use punto::engine::{PlacementResult, RejectReason, TurnEngine, UndoResult};
use punto::sequence::CardSequence;

fn card(value: u8, color: Color) -> Card {
    Card { value, color }
}

fn engine_with(size: usize, cards: Vec<Card>) -> TurnEngine {
    TurnEngine::with_sequence(size, CardSequence { cards })
}

fn same_color_cards(n: usize, color: Color) -> Vec<Card> {
    let mut cards = Vec::new();
    for i in 0..n {
        cards.push(card((i % 9 + 1) as u8, color));
    }
    cards
}

#[test]
fn fresh_engine_accepts_first_move_anywhere() {
    for y in 0..10 {
        for x in 0..10 {
            let mut e = engine_with(10, vec![card(1, Color::Gold)]);
            let r = e.place(x, y);
            assert!(matches!(r, PlacementResult::Placed(px, py, c)
                if px == x && py == y && c == card(1, Color::Gold)));
            assert_eq!(e.top_card(x, y), Some(card(1, Color::Gold)));
        }
    }
}

#[test]
fn place_then_undo_restores_everything() {
    let mut e = engine_with(10, vec![card(4, Color::Salmon), card(6, Color::Gold)]);
    assert!(matches!(e.place(2, 3), PlacementResult::Placed(..)));
    let cursor_before = e.draw_cursor();
    let history_before = e.history_len();
    let preview_before = e.next_card_preview();

    assert!(matches!(e.place(2, 3), PlacementResult::Placed(2, 3, _)));
    assert_eq!(e.undo(), UndoResult::Undone(2, 3));

    assert_eq!(e.draw_cursor(), cursor_before);
    assert_eq!(e.history_len(), history_before);
    assert_eq!(e.next_card_preview(), preview_before);
    assert_eq!(e.top_card(2, 3), Some(card(4, Color::Salmon)));
    assert!(e.is_won().is_none());
}

#[test]
fn undo_on_empty_history_is_a_noop() {
    let mut e = engine_with(10, vec![card(1, Color::Gold)]);
    assert_eq!(e.undo(), UndoResult::NothingToUndo);
    assert_eq!(e.draw_cursor(), 0);
    assert_eq!(e.history_len(), 0);
    for y in 0..10 {
        for x in 0..10 {
            assert_eq!(e.top_card(x, y), None);
        }
    }
}

#[test]
fn undo_of_first_move_restores_the_first_move_freedom() {
    let mut e = engine_with(10, same_color_cards(4, Color::Gold));
    assert!(matches!(e.place(0, 0), PlacementResult::Placed(..)));
    // while the board is touched, an isolated far cell is illegal
    assert!(matches!(
        e.place(9, 9),
        PlacementResult::Rejected(RejectReason::IllegalCell)
    ));
    assert_eq!(e.undo(), UndoResult::Undone(0, 0));
    // after the undo the board is fresh again: any cell is legal
    assert!(matches!(e.place(9, 9), PlacementResult::Placed(9, 9, _)));
}

#[test]
fn three_in_a_column_on_a_small_board_never_wins() {
    let mut e = engine_with(3, same_color_cards(3, Color::Gold));
    for y in 0..3 {
        let r = e.place(0, y);
        assert!(matches!(r, PlacementResult::Placed(..)));
    }
    assert!(e.is_won().is_none());
}

#[test]
fn four_in_a_row_wins_exactly_on_the_fourth_placement() {
    let mut e = engine_with(
        10,
        vec![
            card(2, Color::SeaGreen),
            card(5, Color::SeaGreen),
            card(1, Color::SeaGreen),
            card(7, Color::SeaGreen),
        ],
    );
    assert!(matches!(e.place(0, 0), PlacementResult::Placed(..)));
    assert!(e.is_won().is_none());
    assert!(matches!(e.place(1, 0), PlacementResult::Placed(..)));
    assert!(e.is_won().is_none());
    assert!(matches!(e.place(2, 0), PlacementResult::Placed(..)));
    assert!(e.is_won().is_none());
    let r = e.place(3, 0);
    // the streak runs from the just-placed card back along the row
    let expected = vec![
        card(7, Color::SeaGreen),
        card(1, Color::SeaGreen),
        card(5, Color::SeaGreen),
        card(2, Color::SeaGreen),
    ];
    match r {
        PlacementResult::Won(streak) => assert_eq!(streak, expected),
        _ => panic!("fourth placement must win"),
    }
    assert_eq!(e.is_won(), Some(&expected));
}

#[test]
fn mixed_colors_do_not_win() {
    let mut e = engine_with(
        10,
        vec![
            card(2, Color::SeaGreen),
            card(5, Color::SeaGreen),
            card(1, Color::Gold),
            card(7, Color::SeaGreen),
        ],
    );
    for x in 0..4 {
        assert!(matches!(e.place(x, 0), PlacementResult::Placed(..)));
    }
    assert!(e.is_won().is_none());
}

#[test]
fn lower_card_is_rejected_on_a_higher_stack() {
    let mut e = engine_with(10, vec![card(7, Color::Gold), card(5, Color::Salmon)]);
    assert!(matches!(e.place(5, 5), PlacementResult::Placed(..)));
    // a value-5 card on a value-7 top card is rejected
    assert!(matches!(
        e.place(5, 5),
        PlacementResult::Rejected(RejectReason::IllegalCell)
    ));
    // the rejected card was not consumed
    assert_eq!(e.next_card_preview(), Some(card(5, Color::Salmon)));
}

#[test]
fn higher_card_stacks_on_a_lower_one() {
    let mut e = engine_with(10, vec![card(7, Color::Gold), card(9, Color::Salmon)]);
    assert!(matches!(e.place(5, 5), PlacementResult::Placed(..)));
    assert!(matches!(e.place(5, 5), PlacementResult::Placed(5, 5, _)));
    assert_eq!(e.top_card(5, 5), Some(card(9, Color::Salmon)));
}

#[test]
fn placement_must_touch_the_live_area() {
    let mut e = engine_with(10, same_color_cards(3, Color::Aquamarine));
    assert!(matches!(e.place(5, 5), PlacementResult::Placed(..)));
    // far from all activity: rejected, nothing consumed
    assert!(matches!(
        e.place(7, 7),
        PlacementResult::Rejected(RejectReason::IllegalCell)
    ));
    assert_eq!(e.draw_cursor(), 1);
    // adjacent to the occupied cell: accepted
    assert!(matches!(e.place(5, 6), PlacementResult::Placed(5, 6, _)));
}

#[test]
fn win_freezes_placement_until_undo() {
    let mut e = engine_with(10, same_color_cards(6, Color::Gold));
    for x in 0..4 {
        e.place(x, 0);
    }
    assert!(e.is_won().is_some());
    assert!(matches!(
        e.place(4, 0),
        PlacementResult::Rejected(RejectReason::RoundWon)
    ));
    // undoing the winning move returns the round to playable state
    assert_eq!(e.undo(), UndoResult::Undone(3, 0));
    assert!(e.is_won().is_none());
    assert!(matches!(e.place(3, 0), PlacementResult::Won(_)));
}

#[test]
fn exhausted_sequence_rejects_placement() {
    let mut e = engine_with(10, vec![card(3, Color::Gold)]);
    assert!(matches!(e.place(0, 0), PlacementResult::Placed(..)));
    assert_eq!(e.next_card_preview(), None);
    assert!(matches!(
        e.place(0, 1),
        PlacementResult::Rejected(RejectReason::SequenceExhausted)
    ));
}

#[test]
fn reset_starts_a_fresh_round_with_a_full_deck() {
    let mut e = engine_with(10, same_color_cards(5, Color::Gold));
    e.place(4, 4);
    e.place(4, 5);
    e.reset();
    assert_eq!(e.draw_cursor(), 0);
    assert_eq!(e.history_len(), 0);
    assert!(e.is_won().is_none());
    for y in 0..10 {
        for x in 0..10 {
            assert_eq!(e.top_card(x, y), None);
        }
    }
    assert_eq!(e.sequence.cards.len(), 72);
}

#[test]
fn standard_engine_draws_from_a_full_deck() {
    let e = TurnEngine::new();
    assert_eq!(e.board_size(), 10);
    assert_eq!(e.sequence.cards.len(), 72);
    assert_eq!(e.draw_cursor(), 0);
    assert!(e.is_won().is_none());
}

#[test]
fn next_card_preview_does_not_consume() {
    let e = engine_with(10, vec![card(8, Color::Salmon)]);
    assert_eq!(e.next_card_preview(), Some(card(8, Color::Salmon)));
    assert_eq!(e.next_card_preview(), Some(card(8, Color::Salmon)));
    assert_eq!(e.draw_cursor(), 0);
}

use punto::board::{EmptyTileError, GameState, Tile, BOARD_SIZE};
use punto::card::{Card, Color};
use punto::rules::valid_spawn_location;
use punto::win::{check_card_neighbours, check_wincondition};

fn card(value: u8, color: Color) -> Card {
    Card { value, color }
}

#[test]
fn reset_makes_empty_standard_board() {
    let b = GameState::reset();
    assert_eq!(b.size(), BOARD_SIZE);
    assert!(b.empty);
    for y in 0..BOARD_SIZE {
        for x in 0..BOARD_SIZE {
            assert!(b.get_tile(x, y).is_empty());
            assert_eq!(b.get_tile(x, y).top(), None);
        }
    }
}

#[test]
fn place_sets_top_and_clears_empty_flag() {
    let mut b = GameState::new(10);
    assert!(b.empty);
    b.place(4, 7, card(3, Color::Gold));
    assert!(!b.empty);
    assert_eq!(b.get_tile(4, 7).top(), Some(card(3, Color::Gold)));
    b.place(4, 7, card(8, Color::Salmon));
    assert_eq!(b.get_tile(4, 7).top(), Some(card(8, Color::Salmon)));
    assert_eq!(b.get_tile(4, 7).cards.len(), 2);
}

#[test]
fn remove_top_pops_in_reverse_order() {
    let mut b = GameState::new(5);
    b.place(1, 2, card(2, Color::Aquamarine));
    b.place(1, 2, card(6, Color::SeaGreen));
    assert_eq!(b.remove_top(1, 2), Ok(card(6, Color::SeaGreen)));
    assert_eq!(b.remove_top(1, 2), Ok(card(2, Color::Aquamarine)));
    assert_eq!(b.remove_top(1, 2), Err(EmptyTileError));
}

#[test]
fn remove_top_on_empty_tile_is_an_error() {
    let mut b = GameState::new(3);
    assert_eq!(b.remove_top(0, 0), Err(EmptyTileError));
}

#[test]
fn clear_empties_every_tile_and_restores_flag() {
    let mut b = GameState::new(4);
    b.place(0, 0, card(5, Color::Gold));
    b.place(3, 3, card(1, Color::Salmon));
    b.clear();
    assert!(b.empty);
    for y in 0..4 {
        for x in 0..4 {
            assert!(b.get_tile(x, y).is_empty());
        }
    }
}

#[test]
fn tile_top_is_last_card() {
    let t = Tile { cards: vec![card(1, Color::Gold), card(9, Color::Salmon)] };
    assert_eq!(t.top(), Some(card(9, Color::Salmon)));
    assert!(!t.is_empty());
}

#[test]
fn board_accessor_exposes_row_major_grid() {
    let mut b = GameState::new(3);
    b.place(2, 1, card(4, Color::Gold));
    let tiles = b.board();
    assert_eq!(tiles.len(), 9);
    assert_eq!(tiles[1 * 3 + 2].cards.len(), 1);
}

#[test]
fn first_move_is_legal_anywhere() {
    let b = GameState::new(10);
    for y in 0..10 {
        for x in 0..10 {
            assert!(valid_spawn_location(&b, x, y, card(1, Color::Gold)));
        }
    }
}

#[test]
fn stacking_needs_strictly_higher_value_regardless_of_color() {
    let mut b = GameState::new(10);
    b.place(5, 5, card(7, Color::Gold));
    assert!(!valid_spawn_location(&b, 5, 5, card(5, Color::Salmon)));
    assert!(!valid_spawn_location(&b, 5, 5, card(7, Color::Salmon)));
    assert!(valid_spawn_location(&b, 5, 5, card(9, Color::Gold)));
    assert!(valid_spawn_location(&b, 5, 5, card(8, Color::Salmon)));
}

#[test]
fn empty_cell_needs_an_occupied_neighbor() {
    let mut b = GameState::new(10);
    b.place(5, 5, card(7, Color::Gold));
    // all 8 neighbors of the occupied cell are legal
    for (dx, dy) in [(-1, -1), (-1, 0), (-1, 1), (0, -1), (0, 1), (1, -1), (1, 0), (1, 1)] {
        let x = (5 + dx) as usize;
        let y = (5 + dy) as usize;
        assert!(valid_spawn_location(&b, x, y, card(1, Color::Salmon)));
    }
    // cells away from all activity are not
    assert!(!valid_spawn_location(&b, 7, 7, card(1, Color::Salmon)));
    assert!(!valid_spawn_location(&b, 0, 0, card(9, Color::Salmon)));
}

#[test]
fn adjacency_is_clipped_at_the_border() {
    let mut b = GameState::new(10);
    b.place(0, 0, card(3, Color::Gold));
    assert!(valid_spawn_location(&b, 1, 1, card(1, Color::Salmon)));
    assert!(!valid_spawn_location(&b, 9, 9, card(1, Color::Salmon)));
}

#[test]
fn streak_of_three_is_no_win() {
    let mut b = GameState::new(10);
    for x in 0..3 {
        b.place(x, 4, card(1, Color::Gold));
    }
    for x in 0..3 {
        assert_eq!(check_card_neighbours(&b, x, 4), None);
    }
    assert_eq!(check_wincondition(&b), None);
}

#[test]
fn horizontal_streak_of_four_is_a_win() {
    let mut b = GameState::new(10);
    for x in 2..6 {
        b.place(x, 4, card((x + 1) as u8, Color::SeaGreen));
    }
    let streak = check_card_neighbours(&b, 2, 4).expect("four in a row should win");
    assert_eq!(
        streak,
        vec![
            card(3, Color::SeaGreen),
            card(4, Color::SeaGreen),
            card(5, Color::SeaGreen),
            card(6, Color::SeaGreen),
        ]
    );
    assert!(check_wincondition(&b).is_some());
}

#[test]
fn diagonal_streak_counts_only_top_cards() {
    let mut b = GameState::new(10);
    for k in 0..4 {
        b.place(k, k, card(2, Color::Salmon));
    }
    // bury one of the salmon cards under a gold card: the line is broken
    b.place(2, 2, card(8, Color::Gold));
    assert_eq!(check_card_neighbours(&b, 0, 0), None);
    assert_eq!(check_wincondition(&b), None);
    // a gold card on top of the remaining line does not help gold either
    assert_eq!(check_card_neighbours(&b, 2, 2), None);
}

#[test]
fn streak_never_crosses_the_border() {
    let mut b = GameState::new(3);
    for y in 0..3 {
        b.place(0, y, card(1, Color::Gold));
    }
    for y in 0..3 {
        assert_eq!(check_card_neighbours(&b, 0, y), None);
    }
    assert_eq!(check_wincondition(&b), None);
}

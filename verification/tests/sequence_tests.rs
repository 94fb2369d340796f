use punto::card::{Card, Color};
use punto::sequence::{card_colors, CardSequence, ConfigError};

const ALL_COLORS: [Color; 4] = [Color::Salmon, Color::Gold, Color::Aquamarine, Color::SeaGreen];

fn count(cards: &[Card], value: u8, color: Color) -> usize {
    cards.iter().filter(|c| c.value == value && c.color == color).count()
}

#[test]
fn full_sequence_has_the_fixed_length() {
    let s = CardSequence::generate_full_sequence();
    assert_eq!(s.cards.len(), 72);
}

#[test]
fn full_sequence_composition_is_fixed() {
    // every (value, color) pair appears exactly twice, whatever the shuffle did
    let s = CardSequence::generate_full_sequence();
    for color in ALL_COLORS {
        for value in 1..=9 {
            assert_eq!(count(&s.cards, value, color), 2);
        }
    }
}

#[test]
fn two_generations_have_identical_multisets() {
    let a = CardSequence::generate_full_sequence();
    let b = CardSequence::generate_full_sequence();
    assert_eq!(a.cards.len(), b.cards.len());
    for color in ALL_COLORS {
        for value in 1..=9 {
            assert_eq!(
                count(&a.cards, value, color),
                count(&b.cards, value, color)
            );
        }
    }
}

#[test]
fn player_sequence_holds_the_two_color_decks() {
    let s = CardSequence::generate_player_sequence(Color::Salmon, Color::Gold);
    assert_eq!(s.cards.len(), 36);
    for value in 1..=9 {
        assert_eq!(count(&s.cards, value, Color::Salmon), 2);
        assert_eq!(count(&s.cards, value, Color::Gold), 2);
        assert_eq!(count(&s.cards, value, Color::Aquamarine), 0);
        assert_eq!(count(&s.cards, value, Color::SeaGreen), 0);
    }
}

#[test]
fn all_generated_values_are_in_the_printed_range() {
    let s = CardSequence::generate_full_sequence();
    for c in &s.cards {
        assert!(1 <= c.value && c.value <= 9);
    }
}

#[test]
fn odd_color_count_is_rejected() {
    let colors = vec![Color::Salmon, Color::Gold, Color::Aquamarine];
    assert!(matches!(
        CardSequence::generate_for_colors(&colors),
        Err(ConfigError)
    ));
}

#[test]
fn even_color_counts_are_accepted() {
    let s = CardSequence::generate_for_colors(&vec![Color::Salmon, Color::Gold])
        .expect("one pair is a valid configuration");
    assert_eq!(s.cards.len(), 36);
    let none = CardSequence::generate_for_colors(&Vec::new())
        .expect("no players is a degenerate but valid configuration");
    assert_eq!(none.cards.len(), 0);
}

#[test]
fn standard_colors_are_four_distinct() {
    let colors = card_colors();
    assert_eq!(colors.len(), 4);
    for i in 0..4 {
        for j in 0..4 {
            if i != j {
                assert_ne!(colors[i], colors[j]);
            }
        }
    }
}

#[test]
fn interleaving_alternates_between_players() {
    let a = CardSequence {
        cards: vec![
            Card { value: 1, color: Color::Salmon },
            Card { value: 2, color: Color::Salmon },
        ],
    };
    let b = CardSequence { cards: vec![Card { value: 3, color: Color::Gold }] };
    let out = CardSequence::flatten_interleaved(vec![a, b]);
    assert_eq!(
        out.cards,
        vec![
            Card { value: 1, color: Color::Salmon },
            Card { value: 3, color: Color::Gold },
            Card { value: 2, color: Color::Salmon },
        ]
    );
}

#[test]
fn full_sequence_alternates_between_the_players() {
    // the two private sequences have equal length, so the round-robin
    // interleaving alternates strictly: even positions draw from the
    // first player's colors, odd positions from the second player's
    let s = CardSequence::generate_full_sequence();
    for (i, c) in s.cards.iter().enumerate() {
        if i % 2 == 0 {
            assert!(c.color == Color::Salmon || c.color == Color::Gold);
        } else {
            assert!(c.color == Color::Aquamarine || c.color == Color::SeaGreen);
        }
    }
}

#[test]
fn interleaving_nothing_is_empty() {
    let out = CardSequence::flatten_interleaved(Vec::new());
    assert_eq!(out.cards.len(), 0);
}

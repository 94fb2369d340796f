use vstd::prelude::*;

verus! {

/// Smallest value printed on a card.
pub const MIN_CARD_VALUE: u8 = 1;

/// Largest value printed on a card.
pub const MAX_CARD_VALUE: u8 = 9;

/// The card colors used in the game: an even-sized enumeration that is
/// partitioned into disjoint pairs, one pair per player.
#[derive(Clone, Copy, Debug, PartialEq, Eq, Structural)]
pub enum Color {
    Salmon,
    Gold,
    Aquamarine,
    SeaGreen,
}

/// An immutable card: a value in `MIN_CARD_VALUE..=MAX_CARD_VALUE` and a
/// color. Cards are copied freely and have no identity beyond these two
/// fields; streak comparisons use `color` only, stacking comparisons use
/// `value` only.
#[derive(Clone, Copy, Debug, PartialEq, Eq, Structural)]
pub struct Card {
    pub value: u8,
    pub color: Color,
}

impl Card {
    /// A card as the generator produces it: its value lies in the
    /// printed range.
    pub open spec fn valid(self) -> bool {
        MIN_CARD_VALUE <= self.value <= MAX_CARD_VALUE
    }
}

/// An element-for-element copy of a list of cards.
pub fn copy_cards(v: &Vec<Card>) -> (r: Vec<Card>)
    ensures
        r@ == v@,
{
    let mut r: Vec<Card> = Vec::new();
    let mut i: usize = 0;
    while i < v.len()
        invariant
            i <= v@.len(),
            r@ == v@.take(i as int),
        decreases v@.len() - i,
    {
        r.push(v[i]);
        assert(r@ =~= v@.take(i as int + 1));
        i = i + 1;
    }
    assert(r@ =~= v@);
    r
}

} // verus!

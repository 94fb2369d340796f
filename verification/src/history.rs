use vstd::prelude::*;

use crate::card::Card;

verus! {

/// A record of one successful placement: the cell and the card placed
/// there. The pair determines exactly how to reverse the move: pop the
/// top of the cell's stack, which must equal `card`.
#[derive(Clone, Copy, Debug, PartialEq, Eq, Structural)]
pub struct PlacedCard {
    pub x: usize,
    pub y: usize,
    pub card: Card,
}

/// LIFO record of the successful placements since the round started.
/// The history is empty exactly when the board is in its pre-first-move
/// state.
#[derive(Debug)]
pub struct CardHistory {
    pub moves: Vec<PlacedCard>,
}

impl View for CardHistory {
    type V = Seq<PlacedCard>;

    open spec fn view(&self) -> Seq<PlacedCard> {
        self.moves@
    }
}

impl CardHistory {
    /// An empty history, as at round start.
    pub fn new() -> (h: CardHistory)
        ensures
            h@ == Seq::<PlacedCard>::empty(),
    {
        CardHistory { moves: Vec::new() }
    }

    /// Record one successful placement.
    pub fn record(&mut self, m: PlacedCard)
        ensures
            final(self)@ == old(self)@.push(m),
    {
        self.moves.push(m);
    }

    /// Remove and return the most recent placement, if any.
    pub fn pop_last(&mut self) -> (r: Option<PlacedCard>)
        ensures
            old(self)@.len() > 0 ==> r == Some(old(self)@.last()) && final(self)@ == old(
                self,
            )@.drop_last(),
            old(self)@.len() == 0 ==> r is None && final(self)@ == old(self)@,
    {
        self.moves.pop()
    }

    /// Number of recorded placements.
    pub fn len(&self) -> (n: usize)
        ensures
            n == self@.len(),
    {
        self.moves.len()
    }

    /// Whether no placement is recorded.
    pub fn is_empty(&self) -> (r: bool)
        ensures
            r == (self@.len() == 0),
    {
        self.moves.len() == 0
    }
}

} // verus!

use vstd::prelude::*;

use crate::board::{in_range, tile_at, top_at, top_at_offset, GameState};
use crate::card::Card;
use crate::direction::{direction, directions, is_dir, lemma_directions_complete};

verus! {

/// Whether some of the 8 cells neighboring `(x, y)` holds at least one
/// card. Cells outside the grid are simply not counted as neighbors.
pub open spec fn has_occupied_neighbor(g: Seq<Seq<Card>>, n: int, x: int, y: int) -> bool {
    exists|dx: int, dy: int| is_dir(dx, dy) && top_at(g, n, x + dx, y + dy) is Some
}

/// The placement-legality rule for the next card to draw, evaluated on a
/// board grid `g` of side `n` with first-move flag `empty`:
/// 1. while the board is untouched, every in-range cell is legal;
/// 2. on an occupied cell, legal exactly when the candidate's value is
///    strictly greater than the top card's value, regardless of color;
/// 3. on an empty cell, legal exactly when some neighboring cell is
///    occupied — a new stack may only start adjacent to the live play
///    area.
pub open spec fn spec_is_legal(
    g: Seq<Seq<Card>>,
    n: int,
    empty: bool,
    x: int,
    y: int,
    card: Card,
) -> bool {
    if empty {
        true
    } else if tile_at(g, n, x, y).len() > 0 {
        card.value > tile_at(g, n, x, y).last().value
    } else {
        has_occupied_neighbor(g, n, x, y)
    }
}

/// Decide whether the in-range cell `(x, y)` is a legal target for
/// `card` on `board`.
pub fn valid_spawn_location(board: &GameState, x: usize, y: usize, card: Card) -> (r: bool)
    requires
        board.wf(),
        in_range(board.side(), x as int, y as int),
    ensures
        r == spec_is_legal(board@, board.side(), board.empty, x as int, y as int, card),
{
    // First card of the round is always valid.
    if board.empty {
        return true;
    }
    match board.get_tile(x, y).top() {
        Some(top) => card.value > top.value,
        None => {
            let mut i: usize = 0;
            while i < 8
                invariant
                    board.wf(),
                    in_range(board.side(), x as int, y as int),
                    !board.empty,
                    tile_at(board@, board.side(), x as int, y as int).len() == 0,
                    i <= 8,
                    forall|j: int|
                        0 <= j < i ==> top_at(
                            board@,
                            board.side(),
                            x + #[trigger] directions()[j].0,
                            y + directions()[j].1,
                        ) is None,
                decreases 8 - i,
            {
                let (dx, dy) = direction(i);
                if top_at_offset(board, x, y, dx, dy, 1).is_some() {
                    proof {
                        assert(top_at(board@, board.side(), x + dx as int, y + dy as int)
                            is Some);
                        assert(has_occupied_neighbor(board@, board.side(), x as int, y as int));
                    }
                    return true;
                }
                i = i + 1;
            }
            proof {
                lemma_directions_complete();
                assert forall|dx: int, dy: int| is_dir(dx, dy) implies top_at(
                    board@,
                    board.side(),
                    x + dx,
                    y + dy,
                ) is None by {
                    let i = choose|i: int| 0 <= i < 8 && #[trigger] directions()[i] == (dx, dy);
                    assert(top_at(
                        board@,
                        board.side(),
                        x + directions()[i].0,
                        y + directions()[i].1,
                    ) is None);
                }
            }
            false
        },
    }
}

} // verus!

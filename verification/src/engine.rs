use vstd::prelude::*;

use crate::board::{cell_index, empty_grid, in_range, tile_at, top_at, GameState, BOARD_SIZE};
use crate::card::{copy_cards, Card};
use crate::history::{CardHistory, PlacedCard};
use crate::rules::{spec_is_legal, valid_spawn_location};
use crate::sequence::{full_deck_multiset, CardSequence};
use crate::win::{check_card_neighbours, spec_win_streak};

verus! {

/// Why a placement attempt was rejected. These are ordinary negative
/// results, expected and frequent, never errors that disrupt the round.
#[derive(Clone, Copy, Debug, PartialEq, Eq, Structural)]
pub enum RejectReason {
    /// The round is already won; placement is frozen until undo or reset.
    RoundWon,
    /// Every card of the draw sequence has been placed.
    SequenceExhausted,
    /// The placement rules refuse this cell for the next card.
    IllegalCell,
}

/// Outcome of one placement attempt.
#[derive(Debug)]
pub enum PlacementResult {
    /// The card was placed at the cell; the round goes on.
    Placed(usize, usize, Card),
    /// Nothing changed, for the given reason.
    Rejected(RejectReason),
    /// The card was placed and completed the winning streak carried
    /// here; the round is now in its terminal state.
    Won(Vec<Card>),
}

/// Outcome of one undo request.
#[derive(Clone, Copy, Debug, PartialEq, Eq, Structural)]
pub enum UndoResult {
    /// The most recent placement, at this cell, was reverted.
    Undone(usize, usize),
    /// The history was empty; nothing changed.
    NothingToUndo,
}

/// A snapshot of the whole engine state, used by the contracts: the
/// board grid with its side length and first-move flag, the move
/// history, the draw cursor into the draw sequence, and the win state.
#[verifier::ext_equal]
pub ghost struct EngineView {
    pub n: int,
    pub grid: Seq<Seq<Card>>,
    pub empty: bool,
    pub history: Seq<PlacedCard>,
    pub cursor: int,
    pub sequence: Seq<Card>,
    pub won: Option<Seq<Card>>,
}

/// The grid as the history rebuilds it: each recorded move, oldest
/// first, pushes its card onto its cell of an initially empty grid.
pub open spec fn replay(n: int, moves: Seq<PlacedCard>) -> Seq<Seq<Card>>
    decreases moves.len(),
{
    if moves.len() == 0 {
        empty_grid(n)
    } else {
        let g = replay(n, moves.drop_last());
        let m = moves.last();
        g.update(cell_index(n, m.x as int, m.y as int), tile_at(g, n, m.x as int, m.y as int).push(m.card))
    }
}

proof fn lemma_replay_len(n: int, moves: Seq<PlacedCard>)
    requires
        forall|i: int|
            0 <= i < moves.len() ==> in_range(
                n,
                #[trigger] moves[i].x as int,
                moves[i].y as int,
            ),
    ensures
        replay(n, moves).len() == empty_grid(n).len(),
    decreases moves.len(),
{
    if moves.len() > 0 {
        let m = moves.last();
        assert(in_range(n, m.x as int, m.y as int));
        lemma_replay_len(n, moves.drop_last());
        crate::board::lemma_cell_index_bound(n, m.x as int, m.y as int);
    }
}

/// The engine invariant, over a snapshot: the grid is the replay of the
/// history; every recorded move is on the board; the first-move flag,
/// the draw cursor and the win state agree with the history.
pub open spec fn wf_view(s: EngineView) -> bool {
    &&& 1 <= s.n
    &&& s.n * s.n <= usize::MAX
    &&& s.grid.len() == s.n * s.n
    &&& s.grid == replay(s.n, s.history)
    &&& forall|i: int|
        0 <= i < s.history.len() ==> in_range(
            s.n,
            #[trigger] s.history[i].x as int,
            s.history[i].y as int,
        )
    &&& (s.empty <==> s.history.len() == 0)
    &&& s.cursor == s.history.len()
    &&& s.cursor <= s.sequence.len()
    &&& (s.won is Some ==> s.history.len() > 0)
}

/// Whether a placement at `(x, y)` is accepted: the round is not won,
/// the draw sequence is not exhausted, and the placement rules admit the
/// cell for the next card to draw.
pub open spec fn spec_accepts(s: EngineView, x: int, y: int) -> bool {
    &&& s.won is None
    &&& s.cursor < s.sequence.len()
    &&& spec_is_legal(s.grid, s.n, s.empty, x, y, s.sequence[s.cursor])
}

/// The engine state after a placement attempt at the in-range cell
/// `(x, y)`: unchanged when rejected; otherwise the next card goes onto
/// the cell's stack, the move is recorded, the cursor advances, and the
/// win state is re-evaluated from the touched cell.
pub open spec fn spec_place(s: EngineView, x: int, y: int) -> EngineView {
    if !spec_accepts(s, x, y) {
        s
    } else {
        let card = s.sequence[s.cursor];
        let g2 = s.grid.update(cell_index(s.n, x, y), tile_at(s.grid, s.n, x, y).push(card));
        EngineView {
            n: s.n,
            grid: g2,
            empty: false,
            history: s.history.push(PlacedCard { x: x as usize, y: y as usize, card }),
            cursor: s.cursor + 1,
            sequence: s.sequence,
            won: spec_win_streak(g2, s.n, x, y),
        }
    }
}

/// The engine state after an undo: unchanged when the history is empty;
/// otherwise the most recent move is reverted exactly — its card leaves
/// its cell's stack, the cursor steps back, any win state is cleared,
/// and the first-move flag returns when the history empties.
pub open spec fn spec_undo(s: EngineView) -> EngineView {
    if s.history.len() == 0 {
        s
    } else {
        let m = s.history.last();
        EngineView {
            n: s.n,
            grid: s.grid.update(
                cell_index(s.n, m.x as int, m.y as int),
                tile_at(s.grid, s.n, m.x as int, m.y as int).drop_last(),
            ),
            empty: s.history.len() == 1,
            history: s.history.drop_last(),
            cursor: s.cursor - 1,
            sequence: s.sequence,
            won: None,
        }
    }
}

/// The turn engine: the single owner of board, draw sequence, draw
/// cursor, move history and win state for one round, driven from one
/// execution context. `place`, `undo` and `reset` are its mutations;
/// any result other than `Rejected` or `NothingToUndo` means the board
/// changed and the view layer should re-render.
#[derive(Debug)]
pub struct TurnEngine {
    pub board: GameState,
    pub sequence: CardSequence,
    pub cursor: usize,
    pub history: CardHistory,
    pub won: Option<Vec<Card>>,
}

impl View for TurnEngine {
    type V = EngineView;

    open spec fn view(&self) -> EngineView {
        EngineView {
            n: self.board.side(),
            grid: self.board@,
            empty: self.board.empty,
            history: self.history@,
            cursor: self.cursor as int,
            sequence: self.sequence@,
            won: match self.won {
                Some(v) => Some(v@),
                None => None,
            },
        }
    }
}

impl TurnEngine {
    /// The engine invariant: the board is a full square and the
    /// snapshot satisfies the state invariant.
    pub open spec fn wf(&self) -> bool {
        &&& self.board.wf()
        &&& wf_view(self@)
    }

    /// Start a round on a board of side length `size` with the given
    /// draw sequence.
    pub fn with_sequence(size: usize, sequence: CardSequence) -> (e: TurnEngine)
        requires
            1 <= size,
            size * size <= usize::MAX,
        ensures
            e.wf(),
            e@.n == size,
            e@.grid == empty_grid(size as int),
            e@.empty,
            e@.history == Seq::<PlacedCard>::empty(),
            e@.cursor == 0,
            e@.sequence == sequence@,
            e@.won is None,
    {
        TurnEngine {
            board: GameState::new(size),
            sequence,
            cursor: 0,
            history: CardHistory::new(),
            won: None,
        }
    }

    /// Start a standard round: side length `BOARD_SIZE` and a freshly
    /// generated, randomly shuffled draw sequence of the full deck.
    pub fn new() -> (e: TurnEngine)
        ensures
            e.wf(),
            e@.n == BOARD_SIZE,
            e@.grid == empty_grid(BOARD_SIZE as int),
            e@.empty,
            e@.history == Seq::<PlacedCard>::empty(),
            e@.cursor == 0,
            e@.won is None,
            e@.sequence.to_multiset() == full_deck_multiset(),
            e@.sequence.len() == 72,
    {
        TurnEngine::with_sequence(BOARD_SIZE, CardSequence::generate_full_sequence())
    }

    /// Reset for a new round: clear board, history, cursor and win
    /// state, and regenerate the draw sequence, keeping the side length.
    pub fn reset(&mut self)
        requires
            old(self).wf(),
        ensures
            final(self).wf(),
            final(self)@.n == old(self)@.n,
            final(self)@.grid == empty_grid(old(self)@.n),
            final(self)@.empty,
            final(self)@.history == Seq::<PlacedCard>::empty(),
            final(self)@.cursor == 0,
            final(self)@.won is None,
            final(self)@.sequence.to_multiset() == full_deck_multiset(),
            final(self)@.sequence.len() == 72,
    {
        self.board.clear();
        self.sequence = CardSequence::generate_full_sequence();
        self.cursor = 0;
        self.history = CardHistory::new();
        self.won = None;
    }

    /// Attempt to place the next card of the draw sequence at the
    /// in-range cell `(x, y)`. Exactly one of the three outcomes is
    /// returned: `Rejected` with the reason and nothing changed, or the
    /// card is placed and the result is `Won` with the streak exactly
    /// when the touched cell now heads a run of four, else `Placed`.
    pub fn place(&mut self, x: usize, y: usize) -> (r: PlacementResult)
        requires
            old(self).wf(),
            in_range(old(self)@.n, x as int, y as int),
        ensures
            final(self).wf(),
            final(self)@ == spec_place(old(self)@, x as int, y as int),
            match r {
                PlacementResult::Rejected(reason) => {
                    &&& !spec_accepts(old(self)@, x as int, y as int)
                    &&& final(self)@ == old(self)@
                    &&& (reason == RejectReason::RoundWon <==> old(self)@.won is Some)
                    &&& (reason == RejectReason::SequenceExhausted <==> old(self)@.won is None
                        && old(self)@.cursor >= old(self)@.sequence.len())
                    &&& (reason == RejectReason::IllegalCell <==> old(self)@.won is None && old(
                        self,
                    )@.cursor < old(self)@.sequence.len() && !spec_is_legal(
                        old(self)@.grid,
                        old(self)@.n,
                        old(self)@.empty,
                        x as int,
                        y as int,
                        old(self)@.sequence[old(self)@.cursor],
                    ))
                },
                PlacementResult::Placed(px, py, card) => {
                    &&& spec_accepts(old(self)@, x as int, y as int)
                    &&& px == x && py == y
                    &&& card == old(self)@.sequence[old(self)@.cursor]
                    &&& final(self)@.won is None
                },
                PlacementResult::Won(streak) => {
                    &&& spec_accepts(old(self)@, x as int, y as int)
                    &&& final(self)@.won == Some(streak@)
                    &&& spec_win_streak(final(self)@.grid, old(self)@.n, x as int, y as int)
                        == Some(streak@)
                },
            },
    {
        if self.won.is_some() {
            return PlacementResult::Rejected(RejectReason::RoundWon);
        }
        if self.cursor >= self.sequence.cards.len() {
            return PlacementResult::Rejected(RejectReason::SequenceExhausted);
        }
        let card = self.sequence.cards[self.cursor];
        if !valid_spawn_location(&self.board, x, y, card) {
            return PlacementResult::Rejected(RejectReason::IllegalCell);
        }
        let ghost pre = self@;
        self.board.place(x, y, card);
        self.history.record(PlacedCard { x, y, card });
        self.cursor = self.cursor + 1;
        proof {
            let m = PlacedCard { x, y, card };
            let h2 = pre.history.push(m);
            assert(h2.drop_last() =~= pre.history);
        }
        match check_card_neighbours(&self.board, x, y) {
            Some(streak) => {
                let reported = copy_cards(&streak);
                self.won = Some(streak);
                proof {
                    assert(self@ =~~= spec_place(pre, x as int, y as int));
                }
                PlacementResult::Won(reported)
            },
            None => {
                proof {
                    assert(self@ =~~= spec_place(pre, x as int, y as int));
                }
                PlacementResult::Placed(x, y, card)
            },
        }
    }

    /// Undo the most recent placement, if any: its card leaves its
    /// cell's stack, the draw cursor steps back, any win state is
    /// cleared, and the first-move flag returns when the history
    /// empties. On an empty history this is a no-op.
    pub fn undo(&mut self) -> (r: UndoResult)
        requires
            old(self).wf(),
        ensures
            final(self).wf(),
            final(self)@ == spec_undo(old(self)@),
            match r {
                UndoResult::NothingToUndo => old(self)@.history.len() == 0 && final(self)@ == old(
                    self,
                )@,
                UndoResult::Undone(x, y) => {
                    &&& old(self)@.history.len() > 0
                    &&& x == old(self)@.history.last().x
                    &&& y == old(self)@.history.last().y
                },
            },
    {
        let ghost pre = self@;
        match self.history.pop_last() {
            None => UndoResult::NothingToUndo,
            Some(m) => {
                self.won = None;
                proof {
                    assert(pre.history[pre.history.len() - 1] == m);
                    assert(in_range(pre.n, m.x as int, m.y as int));
                    assert(pre.grid == replay(pre.n, pre.history));
                    // One unfolding of the replay: the top of the move's
                    // cell is exactly the recorded card.
                    assert(replay(pre.n, pre.history) == replay(
                        pre.n,
                        pre.history.drop_last(),
                    ).update(
                        cell_index(pre.n, m.x as int, m.y as int),
                        tile_at(
                            replay(pre.n, pre.history.drop_last()),
                            pre.n,
                            m.x as int,
                            m.y as int,
                        ).push(m.card),
                    ));
                }
                let _removed = self.board.remove_top(m.x, m.y);
                proof {
                    lemma_replay_len(pre.n, pre.history.drop_last());
                    let prev = replay(pre.n, pre.history.drop_last());
                    let idx = cell_index(pre.n, m.x as int, m.y as int);
                    crate::board::lemma_cell_index_bound(pre.n, m.x as int, m.y as int);
                    let prevt = tile_at(prev, pre.n, m.x as int, m.y as int);
                    assert(pre.grid == prev.update(idx, prevt.push(m.card)));
                    assert(pre.grid[idx] == prevt.push(m.card));
                    assert(tile_at(pre.grid, pre.n, m.x as int, m.y as int).len() > 0);
                    assert(prevt.push(m.card).drop_last() =~= prevt);
                    assert(self.board@ =~~= prev);
                }
                if self.history.is_empty() {
                    self.board.empty = true;
                }
                self.cursor = self.cursor - 1;
                proof {
                    assert(self@ =~~= spec_undo(pre));
                }
                UndoResult::Undone(m.x, m.y)
            },
        }
    }

    /// The top card at an in-range cell, for rendering.
    pub fn top_card(&self, x: usize, y: usize) -> (r: Option<Card>)
        requires
            self.wf(),
            in_range(self@.n, x as int, y as int),
        ensures
            r == top_at(self@.grid, self@.n, x as int, y as int),
    {
        self.board.get_tile(x, y).top()
    }

    /// The winning streak of the round, if the round is in its terminal
    /// won state.
    pub fn is_won(&self) -> (r: Option<&Vec<Card>>)
        ensures
            match r {
                Some(v) => self@.won == Some(v@),
                None => self@.won is None,
            },
    {
        match &self.won {
            Some(v) => Some(v),
            None => None,
        }
    }

    /// Peek at the next card to be drawn without consuming it; `None`
    /// when the draw sequence is exhausted.
    pub fn next_card_preview(&self) -> (r: Option<Card>)
        requires
            self.wf(),
        ensures
            self@.cursor < self@.sequence.len() ==> r == Some(self@.sequence[self@.cursor]),
            self@.cursor >= self@.sequence.len() ==> r is None,
    {
        if self.cursor < self.sequence.cards.len() {
            Some(self.sequence.cards[self.cursor])
        } else {
            None
        }
    }

    /// Side length of the board.
    pub fn board_size(&self) -> (n: usize)
        ensures
            n == self@.n,
    {
        self.board.size()
    }

    /// Position of the draw cursor: how many cards have been drawn and
    /// not undone.
    pub fn draw_cursor(&self) -> (n: usize)
        ensures
            n == self@.cursor,
    {
        self.cursor
    }

    /// Number of recorded placements.
    pub fn history_len(&self) -> (n: usize)
        ensures
            n == self@.history.len(),
    {
        self.history.len()
    }
}

} // verus!

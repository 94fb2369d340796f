use vstd::prelude::*;

use vstd::seq_lib::group_to_multiset_ensures;

use crate::board::{cell_index, in_range, lemma_cell_index_bound, tile_at, top_at};
use crate::card::Card;
use crate::engine::{spec_accepts, spec_place, spec_undo, wf_view, EngineView};
use crate::history::PlacedCard;
use crate::rules::spec_is_legal;
use crate::sequence::full_deck_multiset;
use crate::win::{has_win_at, lemma_win_iff, lemma_win_streak_shape, spec_win_streak};

verus! {

/// Any two draw sequences whose composition is the full deck hold the
/// same cards: the multiset of (value, color) pairs is identical across
/// any two generations, whatever each shuffle did, and so is the length.
pub proof fn lemma_generations_same_composition(a: Seq<Card>, b: Seq<Card>)
    requires
        a.to_multiset() == full_deck_multiset(),
        b.to_multiset() == full_deck_multiset(),
    ensures
        a.to_multiset() == b.to_multiset(),
        a.len() == b.len(),
{
    broadcast use group_to_multiset_ensures;

    assert(a.len() == a.to_multiset().len());
    assert(b.len() == b.to_multiset().len());
}

/// An accepted placement followed immediately by an undo restores the
/// engine exactly: board grid, first-move flag, history, draw cursor,
/// draw sequence and win state all return to their values before the
/// placement.
pub proof fn lemma_place_undo_round_trip(s: EngineView, x: int, y: int)
    requires
        wf_view(s),
        in_range(s.n, x, y),
        spec_accepts(s, x, y),
    ensures
        spec_undo(spec_place(s, x, y)) == s,
{
    let card = s.sequence[s.cursor];
    assert(s.n <= s.n * s.n) by (nonlinear_arith)
        requires
            1 <= s.n,
    ;
    assert(0 <= x <= usize::MAX && 0 <= y <= usize::MAX);
    let m = PlacedCard { x: x as usize, y: y as usize, card };
    let s2 = spec_place(s, x, y);
    assert(m.x as int == x && m.y as int == y);
    assert(s2.history.last() == m);
    assert(s2.history.drop_last() =~= s.history);
    let idx = cell_index(s.n, x, y);
    lemma_cell_index_bound(s.n, x, y);
    let t = tile_at(s.grid, s.n, x, y);
    assert(t.push(card).drop_last() =~= t);
    assert(spec_undo(s2).grid =~~= s.grid);
    assert(spec_undo(s2) =~~= s);
}

/// On a fresh board every in-range cell is a legal first target: while
/// the first-move flag is set and the draw sequence is not exhausted and
/// the round is not won, the engine accepts a placement anywhere on the
/// board.
pub proof fn lemma_first_move_accepted_anywhere(s: EngineView, x: int, y: int)
    requires
        wf_view(s),
        s.empty,
        s.cursor < s.sequence.len(),
        in_range(s.n, x, y),
    ensures
        spec_accepts(s, x, y),
        spec_is_legal(s.grid, s.n, s.empty, x, y, s.sequence[s.cursor]),
{
}

/// An accepted placement ends in the won state exactly when some
/// direction from the touched cell yields four consecutive same-color
/// top cards; the reported streak has four cards and starts with the
/// card just placed.
pub proof fn lemma_won_iff_streak(s: EngineView, x: int, y: int)
    requires
        wf_view(s),
        in_range(s.n, x, y),
        spec_accepts(s, x, y),
    ensures
        spec_place(s, x, y).won is Some <==> has_win_at(spec_place(s, x, y).grid, s.n, x, y),
        spec_place(s, x, y).won matches Some(st) ==> st.len() == 4 && st[0]
            == s.sequence[s.cursor],
{
    let s2 = spec_place(s, x, y);
    let g2 = s2.grid;
    lemma_win_iff(g2, s.n, x, y);
    if spec_place(s, x, y).won is Some {
        lemma_win_streak_shape(g2, s.n, x, y);
        lemma_cell_index_bound(s.n, x, y);
        let card = s.sequence[s.cursor];
        assert(tile_at(g2, s.n, x, y) == tile_at(s.grid, s.n, x, y).push(card));
        assert(top_at(g2, s.n, x, y) == Some(card));
    }
}

/// A rejected placement changes nothing.
pub proof fn lemma_rejected_is_noop(s: EngineView, x: int, y: int)
    requires
        !spec_accepts(s, x, y),
    ensures
        spec_place(s, x, y) == s,
{
}

/// Undo on an empty history is a no-op: it alters neither the board nor
/// the draw cursor nor anything else of the engine state.
pub proof fn lemma_undo_empty_history_noop(s: EngineView)
    requires
        s.history.len() == 0,
    ensures
        spec_undo(s) == s,
{
}

} // verus!

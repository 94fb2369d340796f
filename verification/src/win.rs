use vstd::prelude::*;

use crate::board::{in_range, top_at, top_at_offset, GameState};
use crate::card::Card;
use crate::direction::{direction, directions, is_dir, lemma_directions_complete};

verus! {

/// Step `k` of a streak from `(x, y)` along `(dx, dy)` matches: the cell
/// `k` steps out lies on the board, holds a card, and its top card has
/// the color of the top card at `(x, y)`. A cell off the board or with
/// an empty stack ends the streak; offsets never wrap.
pub open spec fn streak_step(
    g: Seq<Seq<Card>>,
    n: int,
    x: int,
    y: int,
    dx: int,
    dy: int,
    k: int,
) -> bool {
    &&& top_at(g, n, x + dx * k, y + dy * k) is Some
    &&& top_at(g, n, x + dx * k, y + dy * k)->0.color == top_at(g, n, x, y)->0.color
}

/// A full winning streak from `(x, y)` along `(dx, dy)`: the origin
/// holds a card and all three cells outward match its color, for a run
/// of four same-color top cards in a line.
pub open spec fn streak_in_dir(
    g: Seq<Seq<Card>>,
    n: int,
    x: int,
    y: int,
    dx: int,
    dy: int,
) -> bool {
    &&& top_at(g, n, x, y) is Some
    &&& forall|k: int| 1 <= k <= 3 ==> streak_step(g, n, x, y, dx, dy, k)
}

/// The four cards of a streak from `(x, y)` along `(dx, dy)`: the card
/// at the origin first, then outward along the direction.
pub open spec fn streak_cards(
    g: Seq<Seq<Card>>,
    n: int,
    x: int,
    y: int,
    dx: int,
    dy: int,
) -> Seq<Card> {
    Seq::new(4, |k: int| top_at(g, n, x + dx * k, y + dy * k)->0)
}

/// Whether the direction at index `i` of the fixed enumeration completes
/// a streak from `(x, y)`.
pub open spec fn streak_at_index(g: Seq<Seq<Card>>, n: int, x: int, y: int, i: int) -> bool {
    streak_in_dir(g, n, x, y, directions()[i].0, directions()[i].1)
}

/// Whether some of the 8 directions from `(x, y)` completes a streak.
pub open spec fn has_win_at(g: Seq<Seq<Card>>, n: int, x: int, y: int) -> bool {
    exists|dx: int, dy: int| is_dir(dx, dy) && streak_in_dir(g, n, x, y, dx, dy)
}

/// Index of the first direction at position `i` or later of the fixed
/// enumeration that completes a streak from `(x, y)`.
pub open spec fn first_win_dir_from(g: Seq<Seq<Card>>, n: int, x: int, y: int, i: int) -> Option<
    int,
>
    decreases 8 - i,
{
    if i < 0 || i >= 8 {
        None
    } else if streak_at_index(g, n, x, y, i) {
        Some(i)
    } else {
        first_win_dir_from(g, n, x, y, i + 1)
    }
}

/// The winning streak reported for the just-changed cell `(x, y)`: the
/// cards of the first direction in enumeration order that completes, or
/// `None` when no direction does.
pub open spec fn spec_win_streak(g: Seq<Seq<Card>>, n: int, x: int, y: int) -> Option<Seq<Card>> {
    match first_win_dir_from(g, n, x, y, 0) {
        Some(i) => Some(streak_cards(g, n, x, y, directions()[i].0, directions()[i].1)),
        None => None,
    }
}

proof fn lemma_first_win_from_none(g: Seq<Seq<Card>>, n: int, x: int, y: int, i: int)
    requires
        forall|j: int| i <= j < 8 ==> !streak_at_index(g, n, x, y, j),
    ensures
        first_win_dir_from(g, n, x, y, i) is None,
    decreases 8 - i,
{
    if 0 <= i < 8 {
        lemma_first_win_from_none(g, n, x, y, i + 1);
    }
}

proof fn lemma_first_win_from_some(g: Seq<Seq<Card>>, n: int, x: int, y: int, i: int, j: int)
    requires
        0 <= i <= j < 8,
        streak_at_index(g, n, x, y, j),
    ensures
        first_win_dir_from(g, n, x, y, i) is Some,
    decreases 8 - i,
{
    if !streak_at_index(g, n, x, y, i) {
        lemma_first_win_from_some(g, n, x, y, i + 1, j);
    }
}

proof fn lemma_first_win_from_props(g: Seq<Seq<Card>>, n: int, x: int, y: int, i: int)
    requires
        0 <= i <= 8,
        first_win_dir_from(g, n, x, y, i) is Some,
    ensures
        ({
            let j = first_win_dir_from(g, n, x, y, i)->0;
            &&& i <= j < 8
            &&& streak_at_index(g, n, x, y, j)
        }),
    decreases 8 - i,
{
    if i < 8 && !streak_at_index(g, n, x, y, i) {
        lemma_first_win_from_props(g, n, x, y, i + 1);
    }
}

/// A direction completes a streak from `(x, y)` exactly when the scan in
/// the fixed enumeration order finds one.
pub proof fn lemma_win_iff(g: Seq<Seq<Card>>, n: int, x: int, y: int)
    ensures
        first_win_dir_from(g, n, x, y, 0) is Some <==> has_win_at(g, n, x, y),
{
    lemma_directions_complete();
    if first_win_dir_from(g, n, x, y, 0) is Some {
        lemma_first_win_from_props(g, n, x, y, 0);
        let j = first_win_dir_from(g, n, x, y, 0)->0;
        assert(is_dir(directions()[j].0, directions()[j].1));
    }
    if has_win_at(g, n, x, y) {
        let (dx, dy) = choose|dx: int, dy: int| is_dir(dx, dy) && streak_in_dir(g, n, x, y, dx, dy);
        let j = choose|j: int| 0 <= j < 8 && #[trigger] directions()[j] == (dx, dy);
        assert(streak_at_index(g, n, x, y, j));
        lemma_first_win_from_some(g, n, x, y, 0, j);
    }
}

/// The reported streak has exactly four cards and starts with the top
/// card of the cell it was checked from.
pub proof fn lemma_win_streak_shape(g: Seq<Seq<Card>>, n: int, x: int, y: int)
    requires
        spec_win_streak(g, n, x, y) is Some,
    ensures
        spec_win_streak(g, n, x, y)->0.len() == 4,
        top_at(g, n, x, y) is Some,
        spec_win_streak(g, n, x, y)->0[0] == top_at(g, n, x, y)->0,
{
    lemma_first_win_from_props(g, n, x, y, 0);
    let j = first_win_dir_from(g, n, x, y, 0)->0;
    let dx = directions()[j].0;
    let dy = directions()[j].1;
    assert(x + dx * 0 == x);
    assert(y + dy * 0 == y);
}

/// Check one direction for a completed streak from `(x, y)`, whose top
/// card is `origin`.
fn try_direction(board: &GameState, x: usize, y: usize, origin: Card, dx: i64, dy: i64) -> (r:
    Option<Vec<Card>>)
    requires
        board.wf(),
        in_range(board.side(), x as int, y as int),
        -1 <= dx as int <= 1,
        -1 <= dy as int <= 1,
        top_at(board@, board.side(), x as int, y as int) == Some(origin),
    ensures
        match r {
            Some(v) => {
                &&& streak_in_dir(board@, board.side(), x as int, y as int, dx as int, dy as int)
                &&& v@ == streak_cards(board@, board.side(), x as int, y as int, dx as int,
                dy as int)
            },
            None => !streak_in_dir(board@, board.side(), x as int, y as int, dx as int, dy as int),
        },
{
    let ghost g = board@;
    let ghost n = board.side();
    let t1 = top_at_offset(board, x, y, dx, dy, 1);
    let c1 = match t1 {
        Some(c) => c,
        None => {
            assert(!streak_step(g, n, x as int, y as int, dx as int, dy as int, 1));
            return None;
        },
    };
    if c1.color != origin.color {
        assert(!streak_step(g, n, x as int, y as int, dx as int, dy as int, 1));
        return None;
    }
    let t2 = top_at_offset(board, x, y, dx, dy, 2);
    let c2 = match t2 {
        Some(c) => c,
        None => {
            assert(!streak_step(g, n, x as int, y as int, dx as int, dy as int, 2));
            return None;
        },
    };
    if c2.color != origin.color {
        assert(!streak_step(g, n, x as int, y as int, dx as int, dy as int, 2));
        return None;
    }
    let t3 = top_at_offset(board, x, y, dx, dy, 3);
    let c3 = match t3 {
        Some(c) => c,
        None => {
            assert(!streak_step(g, n, x as int, y as int, dx as int, dy as int, 3));
            return None;
        },
    };
    if c3.color != origin.color {
        assert(!streak_step(g, n, x as int, y as int, dx as int, dy as int, 3));
        return None;
    }
    let mut v: Vec<Card> = Vec::new();
    v.push(origin);
    v.push(c1);
    v.push(c2);
    v.push(c3);
    proof {
        assert forall|k: int| 1 <= k <= 3 implies streak_step(
            g,
            n,
            x as int,
            y as int,
            dx as int,
            dy as int,
            k,
        ) by {
            if k == 1 {
                assert(streak_step(g, n, x as int, y as int, dx as int, dy as int, 1));
            } else if k == 2 {
                assert(streak_step(g, n, x as int, y as int, dx as int, dy as int, 2));
            } else {
                assert(streak_step(g, n, x as int, y as int, dx as int, dy as int, 3));
            }
        }
        assert(x as int + dx as int * 0 == x as int);
        assert(y as int + dy as int * 0 == y as int);
        assert(v@ =~= streak_cards(g, n, x as int, y as int, dx as int, dy as int));
    }
    Some(v)
}

/// Inspect the 8 directions from the just-changed cell `(x, y)` in their
/// fixed enumeration order and report the streak of the first direction
/// that completes a run of four same-color top cards, origin card first.
/// `None` means no direction from this cell completes a run.
pub fn check_card_neighbours(board: &GameState, x: usize, y: usize) -> (r: Option<Vec<Card>>)
    requires
        board.wf(),
        in_range(board.side(), x as int, y as int),
    ensures
        match r {
            Some(v) => spec_win_streak(board@, board.side(), x as int, y as int) == Some(v@),
            None => spec_win_streak(board@, board.side(), x as int, y as int) is None,
        },
{
    let ghost g = board@;
    let ghost n = board.side();
    let origin = match board.get_tile(x, y).top() {
        Some(c) => c,
        None => {
            proof {
                assert forall|j: int| 0 <= j < 8 implies !streak_at_index(
                    g,
                    n,
                    x as int,
                    y as int,
                    j,
                ) by {
                    assert(top_at(g, n, x as int, y as int) is None);
                }
                lemma_first_win_from_none(g, n, x as int, y as int, 0);
            }
            return None;
        },
    };
    let mut i: usize = 0;
    while i < 8
        invariant
            board.wf(),
            in_range(board.side(), x as int, y as int),
            g == board@,
            n == board.side(),
            top_at(g, n, x as int, y as int) == Some(origin),
            i <= 8,
            first_win_dir_from(g, n, x as int, y as int, 0) == first_win_dir_from(
                g,
                n,
                x as int,
                y as int,
                i as int,
            ),
        decreases 8 - i,
    {
        let (dx, dy) = direction(i);
        match try_direction(board, x, y, origin, dx, dy) {
            Some(v) => {
                proof {
                    assert(streak_at_index(g, n, x as int, y as int, i as int));
                    assert(first_win_dir_from(g, n, x as int, y as int, i as int) == Some(
                        i as int,
                    ));
                }
                return Some(v);
            },
            None => {
                proof {
                    assert(!streak_at_index(g, n, x as int, y as int, i as int));
                }
                i = i + 1;
            },
        }
    }
    None
}

/// Whether the row-major board scan visits `(ax, ay)` before `(bx, by)`.
pub open spec fn scanned_before(ax: int, ay: int, bx: int, by: int) -> bool {
    ay < by || (ay == by && ax < bx)
}

/// Scan the whole board, row by row, and report the winning streak of
/// the first cell, in row-major scan order, whose top card heads a run
/// of four same-color top cards along one of the 8 directions. The scan
/// stops at the first such cell: scanning the same physical line from
/// its other end would otherwise report the same win a second time.
pub fn check_wincondition(board: &GameState) -> (r: Option<Vec<Card>>)
    requires
        board.wf(),
    ensures
        match r {
            Some(v) => exists|x: int, y: int|
                {
                    &&& in_range(board.side(), x, y)
                    &&& #[trigger] spec_win_streak(board@, board.side(), x, y) == Some(v@)
                    &&& forall|xx: int, yy: int|
                        in_range(board.side(), xx, yy) && scanned_before(xx, yy, x, y)
                            ==> !#[trigger] has_win_at(board@, board.side(), xx, yy)
                },
            None => forall|x: int, y: int|
                in_range(board.side(), x, y) ==> !#[trigger] has_win_at(board@, board.side(), x, y),
        },
{
    let ghost g = board@;
    let ghost n = board.side();
    let size = board.size();
    let mut y: usize = 0;
    while y < size
        invariant
            board.wf(),
            g == board@,
            n == board.side(),
            size == board.side(),
            y <= size,
            forall|xx: int, yy: int|
                0 <= xx < n && 0 <= yy < y ==> !#[trigger] has_win_at(g, n, xx, yy),
        decreases size - y,
    {
        let mut x: usize = 0;
        while x < size
            invariant
                board.wf(),
                g == board@,
                n == board.side(),
                size == board.side(),
                y < size,
                x <= size,
                forall|xx: int, yy: int|
                    0 <= xx < n && 0 <= yy < y ==> !#[trigger] has_win_at(g, n, xx, yy),
                forall|xx: int| 0 <= xx < x ==> !#[trigger] has_win_at(g, n, xx, y as int),
            decreases size - x,
        {
            match check_card_neighbours(board, x, y) {
                Some(v) => {
                    proof {
                        assert(in_range(n, x as int, y as int) && spec_win_streak(
                            g,
                            n,
                            x as int,
                            y as int,
                        ) == Some(v@) && forall|xx: int, yy: int|
                            in_range(n, xx, yy) && scanned_before(xx, yy, x as int, y as int)
                                ==> !#[trigger] has_win_at(g, n, xx, yy));
                    }
                    return Some(v);
                },
                None => {
                    proof {
                        lemma_win_iff(g, n, x as int, y as int);
                    }
                },
            }
            x = x + 1;
        }
        y = y + 1;
    }
    None
}

} // verus!

use vstd::prelude::*;

use crate::card::Card;

verus! {

/// Side length of the standard board.
pub const BOARD_SIZE: usize = 10;

/// One grid cell: an ordered stack of cards, append-only except for undo,
/// which pops the most recent entry. The top of a tile is its last
/// element; only the top card counts for legality and win checks.
#[derive(Debug)]
pub struct Tile {
    pub cards: Vec<Card>,
}

impl View for Tile {
    type V = Seq<Card>;

    open spec fn view(&self) -> Seq<Card> {
        self.cards@
    }
}

/// The top card of a tile stack, if the stack is non-empty.
pub open spec fn spec_top(t: Seq<Card>) -> Option<Card> {
    if t.len() > 0 {
        Some(t.last())
    } else {
        None
    }
}

impl Tile {
    /// The most recently placed card on this tile, if any.
    pub fn top(&self) -> (r: Option<Card>)
        ensures
            r == spec_top(self@),
    {
        if self.cards.len() > 0 {
            Some(self.cards[self.cards.len() - 1])
        } else {
            None
        }
    }

    /// Whether no card has been placed on this tile.
    pub fn is_empty(&self) -> (r: bool)
        ensures
            r == (self@.len() == 0),
    {
        self.cards.len() == 0
    }
}

/// Whether `(x, y)` lies on a board of side length `n`.
pub open spec fn in_range(n: int, x: int, y: int) -> bool {
    0 <= x < n && 0 <= y < n
}

/// Index of cell `(x, y)` in the row-major grid of side length `n`.
pub open spec fn cell_index(n: int, x: int, y: int) -> int {
    y * n + x
}

/// The stack at cell `(x, y)` of grid `g` with side length `n`.
pub open spec fn tile_at(g: Seq<Seq<Card>>, n: int, x: int, y: int) -> Seq<Card> {
    g[cell_index(n, x, y)]
}

/// The top card at cell `(x, y)`, or `None` when the cell is off the
/// board or its stack is empty. Coordinates outside the grid simply hold
/// no tile; they are never an error here.
pub open spec fn top_at(g: Seq<Seq<Card>>, n: int, x: int, y: int) -> Option<Card> {
    if in_range(n, x, y) {
        spec_top(tile_at(g, n, x, y))
    } else {
        None
    }
}

/// A grid of side length `n` with every stack empty.
pub open spec fn empty_grid(n: int) -> Seq<Seq<Card>> {
    Seq::new((n * n) as nat, |i: int| Seq::<Card>::empty())
}

/// A row-major cell index of an in-range cell lies inside the grid.
pub proof fn lemma_cell_index_bound(n: int, x: int, y: int) by (nonlinear_arith)
    requires
        in_range(n, x, y),
    ensures
        0 <= cell_index(n, x, y) < n * n,
{
}

/// When the whole grid fits below the machine bound `m` (at most the
/// largest 64-bit word), the side length plus a streak offset fits too.
proof fn lemma_side_fits(size: nat, m: nat) by (nonlinear_arith)
    requires
        1 <= size,
        size * size <= m,
        7 <= m,
        m <= 0xFFFF_FFFF_FFFF_FFFF,
    ensures
        size + 3 <= m,
        size <= 0x1_0000_0000,
{
}

/// Error returned by `remove_top` when the addressed tile holds no card.
#[derive(Debug, Clone, Copy, PartialEq, Eq, Structural)]
pub struct EmptyTileError;

/// The board: a fixed-size square grid of tiles, stored row-major, plus
/// the `empty` flag. The flag is true until the first card of the round
/// is ever placed; it is restored to true only when an undo empties the
/// move history, not recomputed from the grid contents.
#[derive(Debug)]
pub struct GameState {
    pub tiles: Vec<Tile>,
    pub size: usize,
    pub empty: bool,
}

impl View for GameState {
    type V = Seq<Seq<Card>>;

    open spec fn view(&self) -> Seq<Seq<Card>> {
        Seq::new(self.tiles@.len(), |i: int| self.tiles@[i]@)
    }
}

impl GameState {
    /// The grid is a full square of side `side()`.
    pub open spec fn wf(&self) -> bool {
        &&& self.tiles@.len() == self.size * self.size
        &&& 1 <= self.size
        &&& self.size * self.size <= usize::MAX
    }

    /// Side length of the grid.
    pub open spec fn side(&self) -> int {
        self.size as int
    }

    /// A board of side length `size` with every tile empty and the
    /// first-move flag set.
    pub fn new(size: usize) -> (b: GameState)
        requires
            1 <= size,
            size * size <= usize::MAX,
        ensures
            b.wf(),
            b.side() == size,
            b@ == empty_grid(size as int),
            b.empty,
    {
        let count = size * size;
        let mut tiles: Vec<Tile> = Vec::new();
        let mut i: usize = 0;
        while i < count
            invariant
                i <= count,
                tiles@.len() == i,
                forall|j: int| 0 <= j < i ==> tiles@[j]@ == Seq::<Card>::empty(),
            decreases count - i,
        {
            tiles.push(Tile { cards: Vec::new() });
            i = i + 1;
        }
        let b = GameState { tiles, size, empty: true };
        assert(b@ =~= empty_grid(size as int));
        b
    }

    /// A standard board: side length `BOARD_SIZE`, all tiles empty.
    pub fn reset() -> (b: GameState)
        ensures
            b.wf(),
            b.side() == BOARD_SIZE,
            b@ == empty_grid(BOARD_SIZE as int),
            b.empty,
    {
        GameState::new(BOARD_SIZE)
    }

    /// Empty every tile and set the first-move flag, keeping the side
    /// length.
    pub fn clear(&mut self)
        requires
            old(self).wf(),
        ensures
            final(self).wf(),
            final(self).side() == old(self).side(),
            final(self)@ == empty_grid(old(self).side()),
            final(self).empty,
    {
        let fresh = GameState::new(self.size);
        self.tiles = fresh.tiles;
        self.empty = true;
    }

    /// Exact side length of the grid.
    pub fn size(&self) -> (n: usize)
        ensures
            n == self.side(),
    {
        self.size
    }

    /// Read-only access to the whole grid of tiles, row-major.
    pub fn board(&self) -> (t: &Vec<Tile>)
        ensures
            t@.len() == self@.len(),
            forall|i: int| 0 <= i < t@.len() ==> #[trigger] t@[i]@ == self@[i],
    {
        &self.tiles
    }

    /// Read-only view of the tile at pre-validated coordinates.
    pub fn get_tile(&self, x: usize, y: usize) -> (t: &Tile)
        requires
            self.wf(),
            in_range(self.side(), x as int, y as int),
        ensures
            t@ == tile_at(self@, self.side(), x as int, y as int),
    {
        proof {
            lemma_cell_index_bound(self.side(), x as int, y as int);
        }
        &self.tiles[y * self.size + x]
    }

    /// Append `card` to the tile at pre-validated coordinates and clear
    /// the first-move flag.
    pub fn place(&mut self, x: usize, y: usize, card: Card)
        requires
            old(self).wf(),
            in_range(old(self).side(), x as int, y as int),
        ensures
            final(self).wf(),
            final(self).side() == old(self).side(),
            final(self)@ == old(self)@.update(
                cell_index(old(self).side(), x as int, y as int),
                tile_at(old(self)@, old(self).side(), x as int, y as int).push(card),
            ),
            !final(self).empty,
    {
        proof {
            lemma_cell_index_bound(self.side(), x as int, y as int);
        }
        let idx = y * self.size + x;
        self.tiles[idx].cards.push(card);
        self.empty = false;
        assert(final(self)@ =~= old(self)@.update(
            cell_index(old(self).side(), x as int, y as int),
            tile_at(old(self)@, old(self).side(), x as int, y as int).push(card),
        ));
    }

    /// Pop and return the top card of the tile at pre-validated
    /// coordinates; an empty tile is reported as `EmptyTileError` and
    /// leaves the board untouched. The first-move flag is not changed:
    /// the undo machinery restores it only when the history empties.
    pub fn remove_top(&mut self, x: usize, y: usize) -> (r: Result<Card, EmptyTileError>)
        requires
            old(self).wf(),
            in_range(old(self).side(), x as int, y as int),
        ensures
            final(self).wf(),
            final(self).side() == old(self).side(),
            final(self).empty == old(self).empty,
            ({
                let t = tile_at(old(self)@, old(self).side(), x as int, y as int);
                if t.len() > 0 {
                    &&& r == Ok::<Card, EmptyTileError>(t.last())
                    &&& final(self)@ == old(self)@.update(
                        cell_index(old(self).side(), x as int, y as int),
                        t.drop_last(),
                    )
                } else {
                    &&& r == Err::<Card, EmptyTileError>(EmptyTileError)
                    &&& final(self)@ == old(self)@
                }
            }),
    {
        proof {
            lemma_cell_index_bound(self.side(), x as int, y as int);
        }
        let idx = y * self.size + x;
        let popped = self.tiles[idx].cards.pop();
        proof {
            assert(final(self)@ =~= old(self)@.update(
                cell_index(old(self).side(), x as int, y as int),
                final(self)@[cell_index(old(self).side(), x as int, y as int)],
            ));
        }
        match popped {
            Some(card) => Ok(card),
            None => Err(EmptyTileError),
        }
    }
}

/// The top card `k` steps from `(x, y)` along direction `(dx, dy)`, or
/// `None` when that cell lies off the board or holds no card.
pub fn top_at_offset(board: &GameState, x: usize, y: usize, dx: i64, dy: i64, k: i64) -> (r:
    Option<Card>)
    requires
        board.wf(),
        in_range(board.side(), x as int, y as int),
        -1 <= dx <= 1,
        -1 <= dy <= 1,
        1 <= k <= 3,
    ensures
        r == top_at(board@, board.side(), x as int + dx * k, y as int + dy * k),
{
    proof {
        lemma_side_fits(board.size as nat, usize::MAX as nat);
        assert(-3 <= dx * k <= 3) by (nonlinear_arith)
            requires
                -1 <= dx <= 1,
                1 <= k <= 3,
        ;
        assert(-3 <= dy * k <= 3) by (nonlinear_arith)
            requires
                -1 <= dy <= 1,
                1 <= k <= 3,
        ;
    }
    let nx = x as i64 + dx * k;
    let ny = y as i64 + dy * k;
    if 0 <= nx && 0 <= ny && (nx as usize) < board.size && (ny as usize) < board.size {
        board.get_tile(nx as usize, ny as usize).top()
    } else {
        None
    }
}

} // verus!

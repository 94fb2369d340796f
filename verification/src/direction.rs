use vstd::prelude::*;

verus! {

/// Whether `(dx, dy)` is one of the 8 neighbor directions: the offsets
/// in `{-1, 0, 1} x {-1, 0, 1}` except `(0, 0)`.
pub open spec fn is_dir(dx: int, dy: int) -> bool {
    &&& -1 <= dx <= 1
    &&& -1 <= dy <= 1
    &&& !(dx == 0 && dy == 0)
}

/// The 8 neighbor directions in their fixed enumeration order. The win
/// detector reports the streak of the first direction in this order that
/// completes.
pub open spec fn directions() -> Seq<(int, int)> {
    seq![(-1, -1), (-1, 0), (-1, 1), (0, -1), (0, 1), (1, -1), (1, 0), (1, 1)]
}

/// `directions()` enumerates exactly the offsets that `is_dir` admits.
pub proof fn lemma_directions_complete()
    ensures
        directions().len() == 8,
        forall|i: int|
            0 <= i < 8 ==> is_dir(#[trigger] directions()[i].0, directions()[i].1),
        forall|dx: int, dy: int|
            is_dir(dx, dy) ==> exists|i: int| 0 <= i < 8 && #[trigger] directions()[i] == (dx, dy),
{
    assert forall|dx: int, dy: int| is_dir(dx, dy) implies exists|i: int|
        0 <= i < 8 && #[trigger] directions()[i] == (dx, dy) by {
        if dx == -1 && dy == -1 {
            assert(directions()[0] == (dx, dy));
        } else if dx == -1 && dy == 0 {
            assert(directions()[1] == (dx, dy));
        } else if dx == -1 && dy == 1 {
            assert(directions()[2] == (dx, dy));
        } else if dx == 0 && dy == -1 {
            assert(directions()[3] == (dx, dy));
        } else if dx == 0 && dy == 1 {
            assert(directions()[4] == (dx, dy));
        } else if dx == 1 && dy == -1 {
            assert(directions()[5] == (dx, dy));
        } else if dx == 1 && dy == 0 {
            assert(directions()[6] == (dx, dy));
        } else {
            assert(directions()[7] == (dx, dy));
        }
    }
}

/// The `i`-th neighbor direction, in the fixed enumeration order.
pub fn direction(i: usize) -> (d: (i64, i64))
    requires
        i < 8,
    ensures
        (d.0 as int, d.1 as int) == directions()[i as int],
        is_dir(d.0 as int, d.1 as int),
{
    match i {
        0 => (-1, -1),
        1 => (-1, 0),
        2 => (-1, 1),
        3 => (0, -1),
        4 => (0, 1),
        5 => (1, -1),
        6 => (1, 0),
        _ => (1, 1),
    }
}

} // verus!

use vstd::prelude::*;

verus! {

/// A cell of the board: column `0`, row `1`.
#[derive(Clone, Copy, Debug, PartialEq, Eq, Structural)]
pub struct Point(pub u16, pub u16);

/// The heading of the snake.
#[derive(Clone, Copy, Debug, PartialEq, Eq, Structural)]
pub enum Direction {
    Up,
    Down,
    Left,
    Right,
}

/// The cell one step from `p` towards `d`, each axis wrapping modulo 2^16.
pub open spec fn step_spec(p: Point, d: Direction) -> Point {
    match d {
        Direction::Up => Point(p.0, (if p.1 == 0 { u16::MAX } else { (p.1 - 1) as u16 })),
        Direction::Down => Point(p.0, (if p.1 == u16::MAX { 0 } else { (p.1 + 1) as u16 })),
        Direction::Left => Point((if p.0 == 0 { u16::MAX } else { (p.0 - 1) as u16 }), p.1),
        Direction::Right => Point((if p.0 == u16::MAX { 0 } else { (p.0 + 1) as u16 }), p.1),
    }
}

/// Whether `p` lies on a board of `board.0` columns and `board.1` rows.
pub open spec fn on_board(p: Point, board: (u16, u16)) -> bool {
    p.0 < board.0 && p.1 < board.1
}

/// The cell next to `p` in direction `d`, with wrapping coordinates.
pub fn step(p: Point, d: Direction) -> (r: Point)
    ensures
        r == step_spec(p, d),
{
    match d {
        Direction::Up => Point(p.0, p.1.wrapping_sub(1)),
        Direction::Down => Point(p.0, p.1.wrapping_add(1)),
        Direction::Left => Point(p.0.wrapping_sub(1), p.1),
        Direction::Right => Point(p.0.wrapping_add(1), p.1),
    }
}

/// Whether `p` occurs among the first `len` entries of `cells`.
pub fn contains_prefix(cells: &[Point], len: usize, p: Point) -> (r: bool)
    requires
        len <= cells@.len(),
    ensures
        r == cells@.subrange(0, len as int).contains(p),
{
    let mut i: usize = 0;
    while i < len
        invariant
            i <= len <= cells@.len(),
            forall|j: int| 0 <= j < i ==> cells@[j] != p,
        decreases len - i,
    {
        if cells[i] == p {
            assert(cells@.subrange(0, len as int)[i as int] == p);
            return true;
        }
        i += 1;
    }
    assert(!cells@.subrange(0, len as int).contains(p)) by {
        if cells@.subrange(0, len as int).contains(p) {
            let k = choose|k: int| 0 <= k < len && cells@.subrange(0, len as int)[k] == p;
            assert(cells@[k] == p);
        }
    }
    false
}

} // verus!

use vstd::prelude::*;

verus! {

/// Number of cells across the board.
pub const BOARD_WIDTH: i64 = 30;

/// Number of cells down the board.
pub const BOARD_HEIGHT: i64 = 20;

/// Side of one square cell, in board units.
pub const CELL_SIZE: i64 = 32;

/// Width of the drawing surface, in board units.
pub const SCREEN_WIDTH: i64 = BOARD_WIDTH * CELL_SIZE;

/// Height of the drawing surface, in board units.
pub const SCREEN_HEIGHT: i64 = BOARD_HEIGHT * CELL_SIZE;

/// Distance the head travels in one tick.
pub const STEP: i64 = 2;

/// A segment's position: the top-left corner of its square, in board units.
#[derive(Clone, Copy, Debug, PartialEq, Eq, Structural)]
pub struct Pos {
    pub x: i64,
    pub y: i64,
}

impl Pos {
    /// The origin.
    pub fn new() -> (r: Pos)
        ensures
            r.x == 0,
            r.y == 0,
    {
        Pos { x: 0, y: 0 }
    }
}

/// Direction of travel. `Up` increases y and `Down` decreases it.
#[derive(Clone, Copy, Debug, PartialEq, Eq, Structural)]
pub enum Dir {
    Up,
    Down,
    Left,
    Right,
}

/// A key as the game sees it: one of the four arrow keys, or any other key.
#[derive(Clone, Copy, Debug, PartialEq, Eq, Structural)]
pub enum Key {
    Up,
    Down,
    Left,
    Right,
    Other,
}

/// The heading that pressing `k` selects when the current heading is `d`.
pub open spec fn key_dir(k: Key, d: Dir) -> Dir {
    match k {
        Key::Up => Dir::Up,
        Key::Down => Dir::Down,
        Key::Left => Dir::Left,
        Key::Right => Dir::Right,
        Key::Other => d,
    }
}

/// Whether `v` lies at least `n` steps away from both ends of `i64`.
pub open spec fn room_for(v: i64, n: nat) -> bool {
    i64::MIN + STEP * n <= v && v <= i64::MAX - STEP * n
}

/// Whether a head at `p` can take `n` steps in any direction without leaving `i64`.
pub open spec fn can_advance(p: Pos, n: nat) -> bool {
    room_for(p.x, n) && room_for(p.y, n)
}

/// `p` moved `n` steps along `d`, in unbounded integers.
pub open spec fn shifted(p: Pos, d: Dir, n: int) -> (int, int) {
    match d {
        Dir::Up => (p.x as int, p.y + STEP * n),
        Dir::Down => (p.x as int, p.y - STEP * n),
        Dir::Left => (p.x - STEP * n, p.y as int),
        Dir::Right => (p.x + STEP * n, p.y as int),
    }
}

/// `p` moved one step along `d`.
pub open spec fn moved(p: Pos, d: Dir) -> Pos {
    Pos { x: shifted(p, d, 1).0 as i64, y: shifted(p, d, 1).1 as i64 }
}

/// Moves a head one step along `d`.
pub fn move_head(p: Pos, d: Dir) -> (r: Pos)
    requires
        can_advance(p, 1),
    ensures
        r == moved(p, d),
        r.x == shifted(p, d, 1).0,
        r.y == shifted(p, d, 1).1,
{
    match d {
        Dir::Up => Pos { x: p.x, y: p.y + STEP },
        Dir::Down => Pos { x: p.x, y: p.y - STEP },
        Dir::Left => Pos { x: p.x - STEP, y: p.y },
        Dir::Right => Pos { x: p.x + STEP, y: p.y },
    }
}

} // verus!

use vstd::prelude::*;

verus! {

/// The direction a segment will move on its next advance.
#[derive(Clone, Copy, Debug, PartialEq, Eq, Structural)]
pub enum Direction {
    Up,
    Left,
    Right,
    Down,
}

/// A point in world units; the play field's grid is laid over these
/// coordinates with a fixed cell size.
#[derive(Clone, Copy, Debug, PartialEq, Eq, Structural)]
pub struct Vec2 {
    pub x: i64,
    pub y: i64,
}

impl Vec2 {
    pub fn new(x: i64, y: i64) -> (v: Vec2)
        ensures
            v.x == x,
            v.y == y,
    {
        Vec2 { x, y }
    }

    pub fn zero() -> (v: Vec2)
        ensures
            v.x == 0,
            v.y == 0,
    {
        Vec2 { x: 0, y: 0 }
    }
}

/// The direction opposite to `d`; a head may never turn straight into it.
pub open spec fn flipped(d: Direction) -> Direction {
    match d {
        Direction::Up => Direction::Down,
        Direction::Left => Direction::Right,
        Direction::Right => Direction::Left,
        Direction::Down => Direction::Up,
    }
}

pub fn opposite(d: Direction) -> (r: Direction)
    ensures
        r == flipped(d),
{
    match d {
        Direction::Up => Direction::Down,
        Direction::Left => Direction::Right,
        Direction::Right => Direction::Left,
        Direction::Down => Direction::Up,
    }
}

pub open spec fn abs(v: int) -> int {
    if v < 0 { -v } else { v }
}

/// Two axis-aligned boxes of side `cell`, centered at `(ax, ay)` and
/// `(bx, by)`, overlap strictly on both axes; boxes that merely share an
/// edge do not collide.
pub open spec fn overlap_at(ax: int, ay: int, bx: int, by: int, cell: int) -> bool {
    abs(ax - bx) < cell && abs(ay - by) < cell
}

/// Whether the cell-sized boxes centered at `a` and `b` overlap.
pub fn boxes_overlap(a: &Vec2, b: &Vec2, cell: i64) -> (r: bool)
    ensures
        r == overlap_at(a.x as int, a.y as int, b.x as int, b.y as int, cell as int),
{
    let dx: i128 = a.x as i128 - b.x as i128;
    let dy: i128 = a.y as i128 - b.y as i128;
    let adx: i128 = if dx < 0 { -dx } else { dx };
    let ady: i128 = if dy < 0 { -dy } else { dy };
    adx < cell as i128 && ady < cell as i128
}

} // verus!

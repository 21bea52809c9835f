//! Grid geometry: integral cell coordinates, the four unit headings, and
//! the Manhattan path between two corner cells.

use vstd::prelude::*;

verus! {

/// A grid cell: an integral `(x, y)` coordinate. Equality is exact
/// coordinate match; a `Position` is a plain value with no identity.
#[derive(Clone, Copy, PartialEq, Eq, Structural, Debug)]
pub struct Position {
    pub x: i64,
    pub y: i64,
}

/// The four unit headings a snake can travel in. `Up` decreases `y` and
/// `Down` increases it (screen-style coordinates), matching the unit
/// translation applied to a head cell each eligible tick.
#[derive(Clone, Copy, PartialEq, Eq, Structural, Debug)]
pub enum Direction {
    Right,
    Left,
    Up,
    Down,
}

/// The heading that exactly reverses `d`.
pub open spec fn opposite(d: Direction) -> Direction {
    match d {
        Direction::Right => Direction::Left,
        Direction::Left => Direction::Right,
        Direction::Up => Direction::Down,
        Direction::Down => Direction::Up,
    }
}

/// Whether one unit step from `p` in direction `d` stays inside the
/// machine range of a coordinate.
pub open spec fn can_translate(p: Position, d: Direction) -> bool {
    match d {
        Direction::Right => p.x < i64::MAX,
        Direction::Left => p.x > i64::MIN,
        Direction::Up => p.y > i64::MIN,
        Direction::Down => p.y < i64::MAX,
    }
}

/// The cell one unit step from `p` in direction `d`.
pub open spec fn translate_spec(p: Position, d: Direction) -> Position
    recommends
        can_translate(p, d),
{
    match d {
        Direction::Right => Position { x: (p.x + 1) as i64, y: p.y },
        Direction::Left => Position { x: (p.x - 1) as i64, y: p.y },
        Direction::Up => Position { x: p.x, y: (p.y - 1) as i64 },
        Direction::Down => Position { x: p.x, y: (p.y + 1) as i64 },
    }
}

/// The reverse of a heading, as executable code.
pub fn direction_opposite(d: Direction) -> (r: Direction)
    ensures
        r == opposite(d),
{
    match d {
        Direction::Right => Direction::Left,
        Direction::Left => Direction::Right,
        Direction::Up => Direction::Down,
        Direction::Down => Direction::Up,
    }
}

/// One unit step from `p` in direction `d`; the caller must have room.
pub fn translate(p: Position, d: Direction) -> (r: Position)
    requires
        can_translate(p, d),
    ensures
        r == translate_spec(p, d),
{
    match d {
        Direction::Right => Position { x: p.x + 1, y: p.y },
        Direction::Left => Position { x: p.x - 1, y: p.y },
        Direction::Up => Position { x: p.x, y: p.y - 1 },
        Direction::Down => Position { x: p.x, y: p.y + 1 },
    }
}

/// One unit step from `p` in direction `d`, or `None` at the edge of the
/// coordinate range.
pub fn try_translate(p: Position, d: Direction) -> (r: Option<Position>)
    ensures
        can_translate(p, d) ==> r == Some(translate_spec(p, d)),
        !can_translate(p, d) ==> r is None,
{
    match d {
        Direction::Right => if p.x < i64::MAX {
            Some(Position { x: p.x + 1, y: p.y })
        } else {
            None
        },
        Direction::Left => if p.x > i64::MIN {
            Some(Position { x: p.x - 1, y: p.y })
        } else {
            None
        },
        Direction::Up => if p.y > i64::MIN {
            Some(Position { x: p.x, y: p.y - 1 })
        } else {
            None
        },
        Direction::Down => if p.y < i64::MAX {
            Some(Position { x: p.x, y: p.y + 1 })
        } else {
            None
        },
    }
}

/// How many unit steps lie between coordinates `a` and `b`.
pub open spec fn span(a: int, b: int) -> nat {
    if a <= b {
        (b - a) as nat
    } else {
        (a - b) as nat
    }
}

/// `+1` or `-1`: the sense in which a walk starting at `a` reaches `b`.
pub open spec fn toward(a: int, b: int) -> int {
    if a <= b {
        1
    } else {
        -1
    }
}

/// The ordered Manhattan path from `s` toward `t`: first all unit steps
/// along the x-axis at height `s.y`, then all unit steps along the y-axis
/// at `t.x`. Each leg stops one coordinate short of its target on that
/// axis, so `t` itself is never part of the path, and a degenerate span
/// (`s == t`) yields the empty sequence.
pub open spec fn extend_spec(s: Position, t: Position) -> Seq<Position> {
    Seq::new(
        span(s.x as int, t.x as int),
        |i: int| Position { x: (s.x + i * toward(s.x as int, t.x as int)) as i64, y: s.y },
    ) + Seq::new(
        span(s.y as int, t.y as int),
        |i: int| Position { x: t.x, y: (s.y + i * toward(s.y as int, t.y as int)) as i64 },
    )
}

impl Position {
    /// A cell from its two coordinates.
    pub fn new(xpos: i64, ypos: i64) -> (r: Position)
        ensures
            r == (Position { x: xpos, y: ypos }),
    {
        Position { x: xpos, y: ypos }
    }

    /// Materialize the cell-by-cell Manhattan path from `self` toward
    /// `target`, excluding `target` itself. Used to lay a wall between
    /// two configured corner cells.
    pub fn extend(&self, target: &Position) -> (r: Vec<Position>)
        ensures
            r@ == extend_spec(*self, *target),
    {
        let mut v: Vec<Position> = Vec::new();
        let ghost xleg = Seq::new(
            span(self.x as int, target.x as int),
            |i: int| Position {
                x: (self.x + i * toward(self.x as int, target.x as int)) as i64,
                y: self.y,
            },
        );
        let ghost yleg = Seq::new(
            span(self.y as int, target.y as int),
            |i: int| Position {
                x: target.x,
                y: (self.y + i * toward(self.y as int, target.y as int)) as i64,
            },
        );

        if self.x <= target.x {
            let mut cx: i64 = self.x;
            while cx < target.x
                invariant
                    self.x <= cx <= target.x,
                    v@ =~= Seq::new(
                        (cx - self.x) as nat,
                        |i: int| Position { x: (self.x + i) as i64, y: self.y },
                    ),
                decreases target.x - cx,
            {
                v.push(Position { x: cx, y: self.y });
                cx = cx + 1;
            }
            assert(v@ =~= xleg);
        } else {
            let mut cx: i64 = self.x;
            while cx > target.x
                invariant
                    target.x <= cx <= self.x,
                    v@ =~= Seq::new(
                        (self.x - cx) as nat,
                        |i: int| Position { x: (self.x - i) as i64, y: self.y },
                    ),
                decreases cx - target.x,
            {
                v.push(Position { x: cx, y: self.y });
                cx = cx - 1;
            }
            assert(v@ =~= xleg);
        }

        if self.y <= target.y {
            let mut cy: i64 = self.y;
            while cy < target.y
                invariant
                    self.y <= cy <= target.y,
                    v@ =~= xleg + Seq::new(
                        (cy - self.y) as nat,
                        |i: int| Position { x: target.x, y: (self.y + i) as i64 },
                    ),
                decreases target.y - cy,
            {
                v.push(Position { x: target.x, y: cy });
                cy = cy + 1;
            }
            assert(v@ =~= xleg + yleg);
        } else {
            let mut cy: i64 = self.y;
            while cy > target.y
                invariant
                    target.y <= cy <= self.y,
                    v@ =~= xleg + Seq::new(
                        (self.y - cy) as nat,
                        |i: int| Position { x: target.x, y: (self.y - i) as i64 },
                    ),
                decreases cy - target.y,
            {
                v.push(Position { x: target.x, y: cy });
                cy = cy - 1;
            }
            assert(v@ =~= xleg + yleg);
        }

        v
    }
}

} // verus!

use crate::errors::NavError;
use vstd::prelude::*;

verus! {

/// An inclusive axis-aligned rectangle of grid cells: it covers every cell
/// `(x, y)` with `x_start <= x <= x_end` and `y_start <= y <= y_end`.
#[derive(Debug, Clone, Copy, PartialEq, Eq, Structural)]
pub struct Rect {
    pub x_start: usize,
    pub x_end: usize,
    pub y_start: usize,
    pub y_end: usize,
}

/// A coordinate on a grid. Signed: a point may step outside the grid during
/// scanning before being bounds-checked.
#[derive(Debug, Clone, Copy, PartialEq, Eq, Structural)]
pub struct Point {
    pub x: i32,
    pub y: i32,
}

impl Rect {
    /// A rectangle is well formed when each end is at or after its start.
    pub open spec fn wf(self) -> bool {
        self.x_start <= self.x_end && self.y_start <= self.y_end
    }

    /// Whether the cell `(x, y)` lies inside this rectangle.
    pub open spec fn contains(self, x: int, y: int) -> bool {
        self.x_start <= x <= self.x_end && self.y_start <= y <= self.y_end
    }

    /// Whether no cell lies in both `self` and `other`.
    pub open spec fn disjoint(self, other: Rect) -> bool {
        forall|x: int, y: int| !(self.contains(x, y) && other.contains(x, y))
    }

    /// Builds a rectangle, rejecting one whose end lies before its start.
    pub fn new(x_start: usize, x_end: usize, y_start: usize, y_end: usize) -> (r: Result<
        Self,
        NavError,
    >)
        ensures
            x_start <= x_end && y_start <= y_end <==> (r matches Ok(rect) && rect == (Rect {
                x_start,
                x_end,
                y_start,
                y_end,
            })),
            (x_end < x_start || y_end < y_start) <==> r == Err::<Self, NavError>(
                NavError::InvalidRect,
            ),
            r matches Ok(rect) ==> rect.wf(),
    {
        if x_end < x_start || y_end < y_start {
            return Err(NavError::InvalidRect);
        }
        Ok(Rect { x_start, x_end, y_start, y_end })
    }

    /// The corner facing up and to the left.
    pub fn top_left(self) -> (p: Point)
        requires
            self.x_start <= i32::MAX,
            self.y_start <= i32::MAX,
        ensures
            p == (Point { x: self.x_start as i32, y: self.y_start as i32 }),
    {
        Point { x: self.x_start as i32, y: self.y_start as i32 }
    }

    /// The corner facing up and to the right.
    pub fn top_right(self) -> (p: Point)
        requires
            self.x_end <= i32::MAX,
            self.y_start <= i32::MAX,
        ensures
            p == (Point { x: self.x_end as i32, y: self.y_start as i32 }),
    {
        Point { x: self.x_end as i32, y: self.y_start as i32 }
    }

    /// The corner facing down and to the left.
    pub fn bottom_left(self) -> (p: Point)
        requires
            self.x_start <= i32::MAX,
            self.y_end <= i32::MAX,
        ensures
            p == (Point { x: self.x_start as i32, y: self.y_end as i32 }),
    {
        Point { x: self.x_start as i32, y: self.y_end as i32 }
    }

    /// The corner facing down and to the right.
    pub fn bottom_right(self) -> (p: Point)
        requires
            self.x_end <= i32::MAX,
            self.y_end <= i32::MAX,
        ensures
            p == (Point { x: self.x_end as i32, y: self.y_end as i32 }),
    {
        Point { x: self.x_end as i32, y: self.y_end as i32 }
    }

    /// The same region with the two axes swapped.
    pub fn transpose(self) -> (r: Self)
        ensures
            r == (Rect {
                x_start: self.y_start,
                x_end: self.y_end,
                y_start: self.x_start,
                y_end: self.x_end,
            }),
    {
        Rect {
            x_start: self.y_start,
            x_end: self.y_end,
            y_start: self.x_start,
            y_end: self.x_end,
        }
    }
}

impl Point {
    /// The point moved by the given offsets.
    pub fn add(&self, x: i32, y: i32) -> (p: Self)
        requires
            i32::MIN <= self.x + x <= i32::MAX,
            i32::MIN <= self.y + y <= i32::MAX,
        ensures
            p.x == self.x + x,
            p.y == self.y + y,
    {
        Point { x: self.x + x, y: self.y + y }
    }
}

impl Default for Point {
    /// The origin.
    fn default() -> (p: Self)
        ensures
            p == (Point { x: 0, y: 0 }),
    {
        Point { x: 0, y: 0 }
    }
}

/// A directional navigation request.
#[derive(Debug, Clone, Copy, PartialEq, Eq, Structural)]
pub enum Direction {
    Up,
    Down,
    Left,
    Right,
}

/// The unit step a direction takes, as `(x, y)` offsets.
pub open spec fn dir_vec(d: Direction) -> (int, int) {
    match d {
        Direction::Up => (0, -1),
        Direction::Down => (0, 1),
        Direction::Left => (-1, 0),
        Direction::Right => (1, 0),
    }
}

/// The two directions perpendicular to `d`, in the order side scans probe
/// them.
pub open spec fn side_dirs(d: Direction) -> (Direction, Direction) {
    match d {
        Direction::Up | Direction::Down => (Direction::Left, Direction::Right),
        Direction::Left | Direction::Right => (Direction::Up, Direction::Down),
    }
}

impl Direction {
    /// The unit step this direction takes.
    pub fn as_dir_vector(self) -> (v: (i8, i8))
        ensures
            v.0 as int == dir_vec(self).0,
            v.1 as int == dir_vec(self).1,
    {
        match self {
            Direction::Up => (0, -1),
            Direction::Down => (0, 1),
            Direction::Left => (-1, 0),
            Direction::Right => (1, 0),
        }
    }

    /// The unit steps of the two perpendicular directions, in probe order.
    pub fn as_side_dir_vectors(self) -> (v: ((i8, i8), (i8, i8)))
        ensures
            v.0.0 as int == dir_vec(side_dirs(self).0).0,
            v.0.1 as int == dir_vec(side_dirs(self).0).1,
            v.1.0 as int == dir_vec(side_dirs(self).1).0,
            v.1.1 as int == dir_vec(side_dirs(self).1).1,
    {
        match self {
            Direction::Up | Direction::Down => ((-1, 0), (1, 0)),
            Direction::Left | Direction::Right => ((0, -1), (0, 1)),
        }
    }
}

} // verus!

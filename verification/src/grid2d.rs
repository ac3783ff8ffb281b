use crate::errors::NavError;
use crate::geometry::{Point, Rect};
use vstd::prelude::*;

verus! {

/// A dense two-dimensional matrix of optional cells, indexed by column `x`
/// first and row `y` second. Cells are `Copy` so that one occupant can stand
/// in every cell of a filled rectangle.
#[derive(Debug, Clone)]
pub struct Grid2D<T: Copy> {
    pub x_size: usize,
    pub y_size: usize,
    pub grid: Vec<Vec<Option<T>>>,
}

impl<T: Copy> Grid2D<T> {
    /// The matrix really has `x_size` columns of `y_size` cells each, and both
    /// sizes are positive.
    pub open spec fn wf(self) -> bool {
        &&& 1 <= self.x_size
        &&& 1 <= self.y_size
        &&& self.grid@.len() == self.x_size
        &&& forall|x: int|
            0 <= x < self.x_size ==> (#[trigger] self.grid@[x])@.len() == self.y_size
    }

    /// The cell at `(x, y)`.
    pub open spec fn cell(self, x: int, y: int) -> Option<T> {
        self.grid@[x]@[y]
    }

    /// Whether `(x, y)` addresses a cell of the grid.
    pub open spec fn in_bounds(self, x: int, y: int) -> bool {
        0 <= x < self.x_size && 0 <= y < self.y_size
    }

    /// Whether `rect` lies entirely inside the grid.
    pub open spec fn rect_in_bounds(self, rect: Rect) -> bool {
        rect.x_end < self.x_size && rect.y_end < self.y_size
    }

    /// Whether every cell inside `rect` is empty.
    pub open spec fn region_empty(self, rect: Rect) -> bool {
        forall|x: int, y: int| rect.contains(x, y) ==> #[trigger] self.cell(x, y) is None
    }

    /// A column of `n` empty cells.
    fn empty_column(n: usize) -> (col: Vec<Option<T>>)
        ensures
            col@.len() == n,
            forall|y: int| 0 <= y < n ==> #[trigger] col@[y] is None,
    {
        let mut col: Vec<Option<T>> = Vec::new();
        let mut y: usize = 0;
        while y < n
            invariant
                y <= n,
                col@.len() == y,
                forall|k: int| 0 <= k < y ==> #[trigger] col@[k] is None,
            decreases n - y,
        {
            col.push(None);
            y = y + 1;
        }
        col
    }

    /// Builds an empty grid, rejecting a zero dimension.
    pub fn new(x_size: usize, y_size: usize) -> (r: Result<Grid2D<T>, NavError>)
        ensures
            r is Ok <==> 1 <= x_size && 1 <= y_size,
            r is Err ==> r == Err::<Grid2D<T>, NavError>(NavError::InvalidGridSize),
            r matches Ok(g) ==> {
                &&& g.wf()
                &&& g.x_size == x_size
                &&& g.y_size == y_size
                &&& forall|x: int, y: int| g.in_bounds(x, y) ==> #[trigger] g.cell(x, y) is None
            },
    {
        if x_size == 0 || y_size == 0 {
            return Err(NavError::InvalidGridSize);
        }
        let mut grid: Vec<Vec<Option<T>>> = Vec::new();
        let mut x: usize = 0;
        while x < x_size
            invariant
                x <= x_size,
                grid@.len() == x,
                forall|i: int| 0 <= i < x ==> (#[trigger] grid@[i])@.len() == y_size,
                forall|i: int, y: int|
                    0 <= i < x && 0 <= y < y_size ==> #[trigger] grid@[i]@[y] is None,
            decreases x_size - x,
        {
            grid.push(Self::empty_column(y_size));
            x = x + 1;
        }
        Ok(Grid2D { x_size, y_size, grid })
    }

    /// Pure bounds predicate over signed coordinates: negative and too-large
    /// coordinates are both outside.
    pub fn within_bounds(&self, x: i32, y: i32) -> (b: bool)
        ensures
            b == self.in_bounds(x as int, y as int),
    {
        x >= 0 && y >= 0 && (x as usize) < self.x_size && (y as usize) < self.y_size
    }

    /// `within_bounds` over a point.
    pub fn within_bounds_point(&self, pt: Point) -> (b: bool)
        ensures
            b == self.in_bounds(pt.x as int, pt.y as int),
    {
        self.within_bounds(pt.x, pt.y)
    }

    /// The cell at `(x, y)`, rejecting an out-of-bounds coordinate.
    pub fn at(&self, x: usize, y: usize) -> (r: Result<Option<T>, NavError>)
        requires
            self.wf(),
        ensures
            r is Ok <==> self.in_bounds(x as int, y as int),
            r matches Ok(v) ==> v == self.cell(x as int, y as int),
            r is Err ==> r == Err::<Option<T>, NavError>(NavError::OutOfBounds),
    {
        if x >= self.x_size || y >= self.y_size {
            return Err(NavError::OutOfBounds);
        }
        Ok(self.grid[x][y])
    }

    /// Grows the grid to `(new_x_size, new_y_size)`, rejecting any shrink.
    /// New cells are empty; existing cells keep their contents.
    pub fn expand(&mut self, new_x_size: usize, new_y_size: usize) -> (r: Result<(), NavError>)
        requires
            old(self).wf(),
        ensures
            final(self).wf(),
            r is Ok <==> new_x_size >= old(self).x_size && new_y_size >= old(self).y_size,
            r is Err ==> *final(self) == *old(self) && r == Err::<(), NavError>(
                NavError::ShrinkingExpand,
            ),
            r is Ok ==> final(self).x_size == new_x_size && final(self).y_size == new_y_size,
            r is Ok ==> forall|x: int, y: int|
                old(self).in_bounds(x, y) ==> #[trigger] final(self).cell(x, y) == old(self).cell(
                    x,
                    y,
                ),
            r is Ok ==> forall|x: int, y: int|
                final(self).in_bounds(x, y) && !old(self).in_bounds(x, y)
                    ==> #[trigger] final(self).cell(x, y) is None,
    {
        if new_x_size < self.x_size || new_y_size < self.y_size {
            return Err(NavError::ShrinkingExpand);
        }
        let ghost pre = *self;

        // New columns, already at the full new height.
        let mut x: usize = self.x_size;
        while x < new_x_size
            invariant
                pre.wf(),
                pre.x_size <= x <= new_x_size,
                new_y_size >= pre.y_size,
                self.x_size == pre.x_size,
                self.y_size == pre.y_size,
                self.grid@.len() == x,
                forall|i: int| 0 <= i < pre.x_size ==> self.grid@[i] == pre.grid@[i],
                forall|i: int|
                    pre.x_size <= i < x ==> (#[trigger] self.grid@[i])@.len() == new_y_size,
                forall|i: int, y: int|
                    pre.x_size <= i < x && 0 <= y < new_y_size ==> #[trigger] self.grid@[i]@[y]
                        is None,
            decreases new_x_size - x,
        {
            self.grid.push(Self::empty_column(new_y_size));
            x = x + 1;
        }

        // Existing columns gain empty cells at the bottom.
        let mut i: usize = 0;
        while i < self.x_size
            invariant
                pre.wf(),
                i <= pre.x_size,
                new_x_size >= pre.x_size,
                new_y_size >= pre.y_size,
                self.x_size == pre.x_size,
                self.y_size == pre.y_size,
                self.grid@.len() == new_x_size,
                forall|k: int|
                    0 <= k < i ==> (#[trigger] self.grid@[k])@.len() == new_y_size,
                forall|k: int, y: int|
                    0 <= k < i && 0 <= y < pre.y_size ==> #[trigger] self.grid@[k]@[y]
                        == pre.grid@[k]@[y],
                forall|k: int, y: int|
                    0 <= k < i && pre.y_size <= y < new_y_size ==> #[trigger] self.grid@[k]@[y]
                        is None,
                forall|k: int| i <= k < pre.x_size ==> self.grid@[k] == pre.grid@[k],
                forall|k: int|
                    pre.x_size <= k < new_x_size ==> (#[trigger] self.grid@[k])@.len()
                        == new_y_size,
                forall|k: int, y: int|
                    pre.x_size <= k < new_x_size && 0 <= y < new_y_size
                        ==> #[trigger] self.grid@[k]@[y] is None,
            decreases pre.x_size - i,
        {
            let ghost snap = self.grid@;
            assert(self.grid@[i as int] == pre.grid@[i as int]);
            let mut y: usize = self.grid[i].len();
            assert(y == pre.y_size);
            while y < new_y_size
                invariant
                    pre.wf(),
                    i < pre.x_size,
                    new_x_size >= pre.x_size,
                    new_y_size >= pre.y_size,
                    pre.y_size <= y <= new_y_size,
                    self.x_size == pre.x_size,
                    self.y_size == pre.y_size,
                    self.grid@.len() == new_x_size,
                    (#[trigger] self.grid@[i as int])@.len() == y,
                    forall|q: int|
                        0 <= q < pre.y_size ==> #[trigger] self.grid@[i as int]@[q]
                            == pre.grid@[i as int]@[q],
                    forall|q: int|
                        pre.y_size <= q < y ==> #[trigger] self.grid@[i as int]@[q] is None,
                    forall|k: int|
                        0 <= k < new_x_size && k != i ==> #[trigger] self.grid@[k] == snap[k],
                decreases new_y_size - y,
            {
                self.grid[i].push(None);
                y = y + 1;
            }
            i = i + 1;
        }

        self.x_size = new_x_size;
        self.y_size = new_y_size;
        Ok(())
    }

    /// Paints every cell of `rect` with `elem`. Atomic check-then-write: the
    /// call fails, changing nothing, if `rect` reaches outside the grid or if
    /// any cell inside it is already occupied.
    pub fn fill(&mut self, rect: Rect, elem: T) -> (r: Result<(), NavError>)
        requires
            old(self).wf(),
        ensures
            final(self).wf(),
            final(self).x_size == old(self).x_size,
            final(self).y_size == old(self).y_size,
            r is Ok <==> old(self).rect_in_bounds(rect) && old(self).region_empty(rect),
            r is Err ==> *final(self) == *old(self),
            r is Err && !old(self).rect_in_bounds(rect) ==> r == Err::<(), NavError>(
                NavError::OversizedRect,
            ),
            r is Err && old(self).rect_in_bounds(rect) ==> r == Err::<(), NavError>(
                NavError::OverlappingFill,
            ),
            r is Ok ==> fill_result(*old(self), *final(self), rect, elem),
    {
        if rect.x_end >= self.x_size || rect.y_end >= self.y_size {
            return Err(NavError::OversizedRect);
        }
        if rect.x_start > rect.x_end || rect.y_start > rect.y_end {
            // An inverted rectangle covers no cell: nothing to check or write.
            assert(forall|x: int, y: int| !rect.contains(x, y));
            return Ok(());
        }

        // Check that the whole region is empty before writing anything.
        let mut x: usize = rect.x_start;
        while x <= rect.x_end
            invariant
                self.wf(),
                *self == *old(self),
                rect.x_start <= x <= rect.x_end + 1,
                rect.x_end < self.x_size,
                rect.y_end < self.y_size,
                rect.y_start <= rect.y_end,
                forall|i: int, y: int|
                    rect.contains(i, y) && i < x ==> #[trigger] self.cell(i, y) is None,
            decreases rect.x_end + 1 - x,
        {
            let mut y: usize = rect.y_start;
            while y <= rect.y_end
                invariant
                    self.wf(),
                    *self == *old(self),
                    rect.x_start <= x <= rect.x_end,
                    rect.y_start <= y <= rect.y_end + 1,
                    rect.x_end < self.x_size,
                    rect.y_end < self.y_size,
                    forall|i: int, q: int|
                        rect.contains(i, q) && i < x ==> #[trigger] self.cell(i, q) is None,
                    forall|q: int|
                        rect.y_start <= q < y ==> #[trigger] self.cell(x as int, q) is None,
                decreases rect.y_end + 1 - y,
            {
                if self.grid[x][y].is_some() {
                    proof {
                        assert(self.cell(x as int, y as int) is Some);
                        assert(rect.contains(x as int, y as int));
                        assert(!self.region_empty(rect));
                    }
                    return Err(NavError::OverlappingFill);
                }
                proof {
                    assert(self.cell(x as int, y as int) is None);
                }
                y = y + 1;
            }
            x = x + 1;
        }
        assert(self.region_empty(rect));

        // The region is empty: write the occupant everywhere inside it.
        let ghost pre = *self;
        let mut x: usize = rect.x_start;
        while x <= rect.x_end
            invariant
                self.wf(),
                pre.wf(),
                rect.x_start <= x <= rect.x_end + 1,
                rect.x_end < self.x_size,
                rect.y_end < self.y_size,
                rect.y_start <= rect.y_end,
                self.x_size == pre.x_size,
                self.y_size == pre.y_size,
                self.grid@.len() == pre.grid@.len(),
                forall|i: int, y: int|
                    pre.in_bounds(i, y) && !(rect.contains(i, y) && i < x)
                        ==> #[trigger] self.grid@[i]@[y] == pre.grid@[i]@[y],
                forall|i: int, y: int|
                    rect.contains(i, y) && i < x ==> #[trigger] self.grid@[i]@[y] == Some(elem),
            decreases rect.x_end + 1 - x,
        {
            let mut y: usize = rect.y_start;
            while y <= rect.y_end
                invariant
                    self.wf(),
                    pre.wf(),
                    rect.x_start <= x <= rect.x_end,
                    rect.y_start <= y <= rect.y_end + 1,
                    rect.x_end < self.x_size,
                    rect.y_end < self.y_size,
                    self.x_size == pre.x_size,
                    self.y_size == pre.y_size,
                    self.grid@.len() == pre.grid@.len(),
                    forall|i: int, q: int|
                        pre.in_bounds(i, q) && !(rect.contains(i, q) && (i < x || (i == x && q
                            < y))) ==> #[trigger] self.grid@[i]@[q] == pre.grid@[i]@[q],
                    forall|i: int, q: int|
                        rect.contains(i, q) && (i < x || (i == x && q < y))
                            ==> #[trigger] self.grid@[i]@[q] == Some(elem),
                decreases rect.y_end + 1 - y,
            {
                self.grid[x][y] = Some(elem);
                y = y + 1;
            }
            x = x + 1;
        }
        assert forall|x: int, y: int| pre.in_bounds(x, y) implies #[trigger] self.cell(x, y) == (
        if rect.contains(x, y) {
            Some(elem)
        } else {
            pre.cell(x, y)
        }) by {
            if rect.contains(x, y) {
                assert(self.grid@[x]@[y] == Some(elem));
            } else {
                assert(self.grid@[x]@[y] == pre.grid@[x]@[y]);
            }
        }
        Ok(())
    }
}

/// The state change a successful `fill` makes: the rectangle lay inside the
/// grid, its cells were all empty, and afterwards they all hold `elem` while
/// every other cell and both sizes are unchanged.
pub open spec fn fill_result<T: Copy>(pre: Grid2D<T>, post: Grid2D<T>, rect: Rect, elem: T) -> bool {
    &&& pre.wf()
    &&& post.wf()
    &&& post.x_size == pre.x_size
    &&& post.y_size == pre.y_size
    &&& pre.rect_in_bounds(rect)
    &&& pre.region_empty(rect)
    &&& forall|x: int, y: int|
        pre.in_bounds(x, y) ==> #[trigger] post.cell(x, y) == (
        if rect.contains(x, y) {
            Some(elem)
        } else {
            pre.cell(x, y)
        })
}

/// Occupant identity is rectangle-wide: after two successive fills, the two
/// rectangles are disjoint and every cell inside each one reads back that
/// fill's occupant.
pub proof fn lemma_disjoint_fills_read_back<T: Copy>(
    g0: Grid2D<T>,
    g1: Grid2D<T>,
    g2: Grid2D<T>,
    r1: Rect,
    r2: Rect,
    e1: T,
    e2: T,
)
    requires
        fill_result(g0, g1, r1, e1),
        fill_result(g1, g2, r2, e2),
    ensures
        r1.disjoint(r2),
        forall|x: int, y: int| r1.contains(x, y) ==> #[trigger] g2.cell(x, y) == Some(e1),
        forall|x: int, y: int| r2.contains(x, y) ==> #[trigger] g2.cell(x, y) == Some(e2),
{
    assert forall|x: int, y: int| !(r1.contains(x, y) && r2.contains(x, y)) by {
        if r1.contains(x, y) && r2.contains(x, y) {
            assert(g1.cell(x, y) == Some(e1));
            assert(g1.cell(x, y) is None);
        }
    }
    assert forall|x: int, y: int| r1.contains(x, y) implies #[trigger] g2.cell(x, y) == Some(e1) by {
        assert(g1.cell(x, y) == Some(e1));
        assert(g1.in_bounds(x, y));
        assert(!r2.contains(x, y));
    }
}

/// Overlapping fills always fail: once a rectangle is filled, the region of
/// any rectangle sharing a cell with it is no longer empty, so `fill` reports
/// `OverlappingFill` (or `OversizedRect`) instead of silently overwriting.
pub proof fn lemma_overlapping_fill_fails<T: Copy>(
    g0: Grid2D<T>,
    g1: Grid2D<T>,
    r1: Rect,
    e1: T,
    r2: Rect,
)
    requires
        fill_result(g0, g1, r1, e1),
        !r1.disjoint(r2),
    ensures
        !g1.region_empty(r2),
{
    let (x, y) = choose|x: int, y: int| r1.contains(x, y) && r2.contains(x, y);
    assert(g1.cell(x, y) == Some(e1));
}

} // verus!

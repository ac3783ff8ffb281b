use focus_grid::{Grid2D, NavError, Point, Rect};

#[test]
fn disjoint_fills_read_back_rect_wide() {
    let mut grid: Grid2D<u8> = Grid2D::new(6, 4).unwrap();
    let r1 = Rect::new(0, 1, 0, 2).unwrap();
    let r2 = Rect::new(3, 5, 1, 3).unwrap();
    grid.fill(r1, 10).unwrap();
    grid.fill(r2, 20).unwrap();
    for x in r1.x_start..r1.x_end + 1 {
        for y in r1.y_start..r1.y_end + 1 {
            assert_eq!(grid.at(x, y).unwrap(), Some(10));
        }
    }
    for x in r2.x_start..r2.x_end + 1 {
        for y in r2.y_start..r2.y_end + 1 {
            assert_eq!(grid.at(x, y).unwrap(), Some(20));
        }
    }
    // Cells outside both rectangles stay empty.
    assert_eq!(grid.at(2, 0).unwrap(), None);
    assert_eq!(grid.at(5, 0).unwrap(), None);
}

#[test]
fn overlapping_fill_fails_and_overwrites_nothing() {
    let mut grid: Grid2D<u8> = Grid2D::new(6, 4).unwrap();
    grid.fill(Rect::new(0, 2, 0, 2).unwrap(), 10).unwrap();
    // Overlaps the corner cell (2, 2).
    let r = grid.fill(Rect::new(2, 4, 2, 3).unwrap(), 20);
    assert!(matches!(r, Err(NavError::OverlappingFill)));
    for x in 0..3 {
        for y in 0..3 {
            assert_eq!(grid.at(x, y).unwrap(), Some(10));
        }
    }
    assert_eq!(grid.at(3, 3).unwrap(), None);
}

#[test]
fn fill_rejects_oversized_rect() {
    let mut grid: Grid2D<u8> = Grid2D::new(4, 4).unwrap();
    let r = grid.fill(Rect::new(2, 4, 0, 0).unwrap(), 1);
    assert!(matches!(r, Err(NavError::OversizedRect)));
    let r = grid.fill(Rect::new(0, 0, 0, 4).unwrap(), 1);
    assert!(matches!(r, Err(NavError::OversizedRect)));
}

#[test]
fn expand_rejects_any_shrink() {
    let mut grid: Grid2D<u8> = Grid2D::new(4, 4).unwrap();
    assert!(matches!(grid.expand(3, 4), Err(NavError::ShrinkingExpand)));
    assert!(matches!(grid.expand(4, 3), Err(NavError::ShrinkingExpand)));
    assert!(matches!(grid.expand(3, 3), Err(NavError::ShrinkingExpand)));
    assert_eq!(grid.x_size, 4);
    assert_eq!(grid.y_size, 4);
}

#[test]
fn expand_preserves_contents_and_adds_empty_cells() {
    let mut grid: Grid2D<u8> = Grid2D::new(3, 2).unwrap();
    grid.fill(Rect::new(0, 1, 0, 1).unwrap(), 7).unwrap();
    grid.expand(5, 4).unwrap();
    assert_eq!(grid.x_size, 5);
    assert_eq!(grid.y_size, 4);
    for x in 0..2 {
        for y in 0..2 {
            assert_eq!(grid.at(x, y).unwrap(), Some(7));
        }
    }
    for x in 0..5 {
        for y in 0..4 {
            if x >= 2 || y >= 2 {
                assert_eq!(grid.at(x, y).unwrap(), None, "cell {} {}", x, y);
            }
        }
    }
}

#[test]
fn grid_rejects_zero_dimension() {
    assert!(matches!(
        Grid2D::<u8>::new(0, 3),
        Err(NavError::InvalidGridSize)
    ));
    assert!(matches!(
        Grid2D::<u8>::new(3, 0),
        Err(NavError::InvalidGridSize)
    ));
}

#[test]
fn at_rejects_out_of_bounds() {
    let grid: Grid2D<u8> = Grid2D::new(3, 3).unwrap();
    assert!(matches!(grid.at(3, 0), Err(NavError::OutOfBounds)));
    assert!(matches!(grid.at(0, 3), Err(NavError::OutOfBounds)));
    assert_eq!(grid.at(2, 2).unwrap(), None);
}

#[test]
fn within_bounds_handles_signed_coordinates() {
    let grid: Grid2D<u8> = Grid2D::new(3, 2).unwrap();
    assert!(grid.within_bounds(0, 0));
    assert!(grid.within_bounds(2, 1));
    assert!(!grid.within_bounds(-1, 0));
    assert!(!grid.within_bounds(0, -1));
    assert!(!grid.within_bounds(3, 0));
    assert!(!grid.within_bounds(0, 2));
    assert!(grid.within_bounds_point(Point { x: 1, y: 1 }));
    assert!(!grid.within_bounds_point(Point { x: -1, y: 5 }));
}

#[test]
fn rect_rejects_inverted_ends() {
    assert!(matches!(Rect::new(2, 1, 0, 0), Err(NavError::InvalidRect)));
    assert!(matches!(Rect::new(0, 0, 3, 2), Err(NavError::InvalidRect)));
    let r = Rect::new(1, 4, 2, 3).unwrap();
    assert_eq!(r.x_start, 1);
    assert_eq!(r.x_end, 4);
    assert_eq!(r.y_start, 2);
    assert_eq!(r.y_end, 3);
}

#[test]
fn rect_corners_and_transpose() {
    let r = Rect::new(1, 4, 2, 6).unwrap();
    assert_eq!(r.top_left(), Point { x: 1, y: 2 });
    assert_eq!(r.top_right(), Point { x: 4, y: 2 });
    assert_eq!(r.bottom_left(), Point { x: 1, y: 6 });
    assert_eq!(r.bottom_right(), Point { x: 4, y: 6 });
    let t = r.transpose();
    assert_eq!(t, Rect::new(2, 6, 1, 4).unwrap());
}

#[test]
fn point_add_offsets_both_axes() {
    let p = Point { x: 3, y: -2 };
    let q = p.add(-4, 5);
    assert_eq!(q, Point { x: -1, y: 3 });
    assert_eq!(Point::default(), Point { x: 0, y: 0 });
}

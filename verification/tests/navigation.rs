use focus_grid::{
    GridItem, LayoutGridBuilder, LayoutTree, NavError, NavigationController, NavigationDirective,
    NavigationResult, Rect,
};
use focus_grid::Direction;

fn simple_layout() -> Result<LayoutTree, NavError> {
    let mut builder = LayoutGridBuilder::new(10, 5, "L0".to_owned());
    builder.add_element(Rect::new(0, 1, 0, 1)?, "0_alpha".to_owned())?;
    builder.add_element(Rect::new(2, 2, 0, 1)?, "0_beta".to_owned())?;
    builder.build()
}

fn nested_layout() -> Result<LayoutTree, NavError> {
    let mut builder = LayoutGridBuilder::new(10, 5, "L0".to_owned());
    builder.add_element(Rect::new(0, 1, 0, 1)?, "0_alpha".to_owned())?;
    builder.add_element(Rect::new(2, 2, 0, 1)?, "0_beta".to_owned())?;
    let sub = builder.with_sublayout(Rect::new(0, 9, 2, 4)?, "L1".to_owned(), 7, 10);
    sub.add_element(Rect::new(0, 0, 0, 9)?, "1_alpha".to_owned())?;
    sub.add_element(Rect::new(1, 1, 0, 9)?, "1_beta".to_owned())?;
    builder.build()
}

fn element_at_is(layout: &LayoutTree, node: usize, x: usize, y: usize, expected: &GridItem) {
    let item = layout.nodes[node]
        .item_at(x, y)
        .unwrap()
        .unwrap_or_else(|| panic!("no element at {}, {}", x, y));
    let (expected_s, expected_r) = match expected {
        GridItem::Element(s, r) => (s, r),
        GridItem::Sublayout(..) => panic!("invalid grid item input"),
    };
    match item {
        GridItem::Element(s, r) => {
            assert_eq!(s, expected_s);
            assert_eq!(r, expected_r);
        }
        GridItem::Sublayout(..) => panic!("bad element at {}, {}", x, y),
    }
}

fn element_in_rect_is(layout: &LayoutTree, node: usize, rect: &Rect, expected: &GridItem) {
    for x in rect.x_start..rect.x_end + 1 {
        for y in rect.y_start..rect.y_end + 1 {
            element_at_is(layout, node, x, y, expected)
        }
    }
}

#[test]
fn sample_grid_has_expected_items() {
    let sut = simple_layout().unwrap();

    element_in_rect_is(
        &sut,
        sut.root,
        &Rect::new(0, 1, 0, 1).unwrap(),
        &GridItem::Element("0_alpha".to_owned(), Rect::new(0, 1, 0, 1).unwrap()),
    );

    element_in_rect_is(
        &sut,
        sut.root,
        &Rect::new(2, 2, 0, 1).unwrap(),
        &GridItem::Element("0_beta".to_owned(), Rect::new(2, 2, 0, 1).unwrap()),
    );
}

#[test]
fn can_build_nested_layout() {
    nested_layout().unwrap();
}

#[test]
fn can_build_controller() {
    let _ = NavigationController::new(nested_layout().unwrap()).unwrap();
}

#[test]
fn navigation_right() {
    let mut controller = NavigationController::new(nested_layout().unwrap()).unwrap();
    let mut res = controller
        .navigate(NavigationDirective::Direction(Direction::Right))
        .unwrap();
    if let NavigationResult::WithinLayout(ref id) = res {
        assert_eq!(id, "0_beta");
    } else {
        panic!("unexpected navigation result {:?}", res)
    }

    res = controller
        .navigate(NavigationDirective::Direction(Direction::Right))
        .unwrap();
    assert!(matches!(res, NavigationResult::NoNextItem));
}

#[test]
fn navigation_into_sublayout() {
    let mut controller = NavigationController::new(nested_layout().unwrap()).unwrap();
    let res = controller
        .navigate(NavigationDirective::Direction(Direction::Down))
        .unwrap();
    if let NavigationResult::AcrossLayout(ref id, _) = res {
        assert_eq!(id, "1_alpha");
    } else {
        panic!("unexpected navigation result {:?}", res)
    }
}

#[test]
fn navigation_into_sublayout_then_out() {
    let mut controller = NavigationController::new(nested_layout().unwrap()).unwrap();
    let mut res = controller
        .navigate(NavigationDirective::Direction(Direction::Down))
        .unwrap();
    if let NavigationResult::AcrossLayout(ref id, _) = res {
        assert_eq!(id, "1_alpha");
    } else {
        panic!("unexpected navigation result {:?}", res)
    }

    res = controller
        .navigate(NavigationDirective::Direction(Direction::Up))
        .unwrap();
    if let NavigationResult::AcrossLayout(ref id, _) = res {
        assert_eq!(id, "0_alpha");
    } else {
        panic!("unexpected navigation result {:?}", res)
    }
}

#[test]
fn entry_point_maps_fraction_over_child_range() {
    // From "0_beta" at (2, 0..1), stepping Down lands on the child cell
    // (2, 2); the child rectangle is (0..9, 2..4), so the entry fraction is
    // (2/9, 0/2) and the 7x10 child is entered at
    // (floor(6 * 2 / 9), floor(9 * 0 / 2)) = (1, 0): element "1_beta".
    let mut controller = NavigationController::new(nested_layout().unwrap()).unwrap();
    let res = controller
        .navigate(NavigationDirective::Direction(Direction::Right))
        .unwrap();
    assert!(matches!(res, NavigationResult::WithinLayout(ref id) if id == "0_beta"));
    let res = controller
        .navigate(NavigationDirective::Direction(Direction::Down))
        .unwrap();
    if let NavigationResult::AcrossLayout(ref id, _) = res {
        assert_eq!(id, "1_beta");
    } else {
        panic!("unexpected navigation result {:?}", res)
    }
}

#[test]
fn noop_reports_cached_focus_without_moving() {
    let mut controller = NavigationController::new(simple_layout().unwrap()).unwrap();
    assert_eq!(
        controller.get_current_focus_id().as_deref(),
        Some("0_alpha")
    );
    for _ in 0..2 {
        let res = controller.navigate(NavigationDirective::Noop).unwrap();
        assert!(matches!(res, NavigationResult::WithinLayout(ref id) if id == "0_alpha"));
        assert_eq!(
            controller.get_current_focus_id().as_deref(),
            Some("0_alpha")
        );
    }
    // A focus moved by navigation is what Noop reports afterwards.
    let res = controller
        .navigate(NavigationDirective::Direction(Direction::Right))
        .unwrap();
    assert!(matches!(res, NavigationResult::WithinLayout(ref id) if id == "0_beta"));
    let res = controller.navigate(NavigationDirective::Noop).unwrap();
    assert!(matches!(res, NavigationResult::WithinLayout(ref id) if id == "0_beta"));
}

#[test]
fn button_without_override_reports_focus() {
    let mut controller = NavigationController::new(simple_layout().unwrap()).unwrap();
    let res = controller
        .navigate(NavigationDirective::Button(7))
        .unwrap();
    assert!(matches!(res, NavigationResult::WithinLayout(ref id) if id == "0_alpha"));
}

#[test]
fn side_scan_finds_offset_element() {
    // The primary ray to the right of "a" is empty; the side scan probes
    // downward from the line and reaches "b".
    let mut builder = LayoutGridBuilder::new(5, 5, "L0".to_owned());
    builder
        .add_element(Rect::new(0, 0, 0, 0).unwrap(), "a".to_owned())
        .unwrap();
    builder
        .add_element(Rect::new(4, 4, 1, 1).unwrap(), "b".to_owned())
        .unwrap();
    let mut controller = NavigationController::new(builder.build().unwrap()).unwrap();
    let res = controller
        .navigate(NavigationDirective::Direction(Direction::Right))
        .unwrap();
    assert!(matches!(res, NavigationResult::WithinLayout(ref id) if id == "b"));
}

#[test]
fn side_scan_blocked_by_sublayout() {
    // The cell below the scan line holds a nested grid: the probe on that
    // side stops there, so "b" behind it is never reached.
    let mut builder = LayoutGridBuilder::new(5, 5, "L0".to_owned());
    builder
        .add_element(Rect::new(0, 0, 0, 0).unwrap(), "a".to_owned())
        .unwrap();
    builder
        .add_element(Rect::new(1, 1, 3, 3).unwrap(), "b".to_owned())
        .unwrap();
    builder.with_sublayout(Rect::new(1, 1, 1, 1).unwrap(), "S".to_owned(), 2, 2);
    let mut controller = NavigationController::new(builder.build().unwrap()).unwrap();
    let res = controller
        .navigate(NavigationDirective::Direction(Direction::Right))
        .unwrap();
    assert!(matches!(res, NavigationResult::NoNextItem));
}

#[test]
fn no_next_item_keeps_focus() {
    let mut controller = NavigationController::new(simple_layout().unwrap()).unwrap();
    let res = controller
        .navigate(NavigationDirective::Direction(Direction::Up))
        .unwrap();
    assert!(matches!(res, NavigationResult::NoNextItem));
    assert_eq!(
        controller.get_current_focus_id().as_deref(),
        Some("0_alpha")
    );
}

#[test]
fn right_scan_on_flat_grid_stops_after_last_element() {
    let mut controller = NavigationController::new(simple_layout().unwrap()).unwrap();
    let res = controller
        .navigate(NavigationDirective::Direction(Direction::Right))
        .unwrap();
    assert!(matches!(res, NavigationResult::WithinLayout(ref id) if id == "0_beta"));
    let res = controller
        .navigate(NavigationDirective::Direction(Direction::Right))
        .unwrap();
    assert!(matches!(res, NavigationResult::NoNextItem));
}

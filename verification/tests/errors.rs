use focus_grid::{
    GrowDirection, LayoutGridBuilder, NavError, NavigationController, Rect,
};

#[test]
fn builder_rejects_mixing_growable_and_elements() {
    let mut builder = LayoutGridBuilder::new(4, 4, "L".to_owned());
    builder.set_growable(1, 1, GrowDirection::GrowX).unwrap();
    let r = builder.add_element(Rect::new(0, 0, 0, 0).unwrap(), "a".to_owned());
    assert!(matches!(r, Err(NavError::MixedGrowable)));

    let mut builder = LayoutGridBuilder::new(4, 4, "L".to_owned());
    builder
        .add_element(Rect::new(0, 0, 0, 0).unwrap(), "a".to_owned())
        .unwrap();
    let r = builder.set_growable(1, 1, GrowDirection::GrowX);
    assert!(matches!(r, Err(NavError::MixedGrowable)));
}

#[test]
fn sub_builder_cannot_build_standalone() {
    let builder = LayoutGridBuilder::new_sub(3, 3, "S".to_owned());
    assert!(matches!(builder.build(), Err(NavError::NonRootBuild)));
}

#[test]
fn build_rejects_zero_dimension() {
    let builder = LayoutGridBuilder::new(0, 5, "L".to_owned());
    assert!(matches!(builder.build(), Err(NavError::InvalidGridSize)));
}

#[test]
fn build_rejects_grid_beyond_coordinate_range() {
    let builder = LayoutGridBuilder::new(usize::MAX, 2, "L".to_owned());
    assert!(matches!(builder.build(), Err(NavError::GridTooLarge)));
}

#[test]
fn build_rejects_element_outside_grid() {
    let mut builder = LayoutGridBuilder::new(3, 3, "L".to_owned());
    builder
        .add_element(Rect::new(0, 3, 0, 0).unwrap(), "a".to_owned())
        .unwrap();
    assert!(matches!(builder.build(), Err(NavError::OversizedRect)));
}

#[test]
fn build_rejects_overlapping_elements() {
    let mut builder = LayoutGridBuilder::new(4, 4, "L".to_owned());
    builder
        .add_element(Rect::new(0, 2, 0, 2).unwrap(), "a".to_owned())
        .unwrap();
    builder
        .add_element(Rect::new(2, 3, 2, 3).unwrap(), "b".to_owned())
        .unwrap();
    assert!(matches!(builder.build(), Err(NavError::OverlappingFill)));
}

#[test]
fn controller_rejects_empty_origin_cell() {
    let mut builder = LayoutGridBuilder::new(3, 3, "L".to_owned());
    builder
        .add_element(Rect::new(1, 1, 1, 1).unwrap(), "a".to_owned())
        .unwrap();
    let tree = builder.build().unwrap();
    let r = NavigationController::new(tree);
    assert!(matches!(r, Err(NavError::EmptyFocusCell)));
}

#[test]
fn controller_rejects_sublayout_at_origin() {
    let mut builder = LayoutGridBuilder::new(3, 3, "L".to_owned());
    let sub = builder.with_sublayout(Rect::new(0, 1, 0, 1).unwrap(), "S".to_owned(), 2, 2);
    sub.add_element(Rect::new(0, 0, 0, 0).unwrap(), "inner".to_owned())
        .unwrap();
    let tree = builder.build().unwrap();
    let r = NavigationController::new(tree);
    assert!(matches!(r, Err(NavError::FocusOnSublayout)));
}

#[test]
fn unknown_child_lookup_is_rejected() {
    let mut builder = LayoutGridBuilder::new(3, 3, "L".to_owned());
    builder
        .add_element(Rect::new(0, 0, 0, 0).unwrap(), "a".to_owned())
        .unwrap();
    let controller = NavigationController::new(builder.build().unwrap()).unwrap();
    let r = controller.get_sublayout_by_id("nope");
    assert!(matches!(r, Err(NavError::UnknownChild)));
}

#[test]
fn dangling_node_index_is_rejected() {
    let mut builder = LayoutGridBuilder::new(3, 3, "L".to_owned());
    builder
        .add_element(Rect::new(0, 0, 0, 0).unwrap(), "a".to_owned())
        .unwrap();
    let mut controller = NavigationController::new(builder.build().unwrap()).unwrap();
    let r = controller.insert_elem_into(99, "x");
    assert!(matches!(r, Err(NavError::DanglingNodeRef)));
}

#[test]
fn current_item_without_focus_point_fails() {
    let mut builder = LayoutGridBuilder::new(3, 3, "L".to_owned());
    builder
        .add_element(Rect::new(0, 0, 0, 0).unwrap(), "a".to_owned())
        .unwrap();
    let tree = builder.build().unwrap();
    // A freshly built node has no focus point until a controller sets one.
    let r = tree.nodes[tree.root].current_item();
    assert!(matches!(r, Err(NavError::NoFocus)));
}

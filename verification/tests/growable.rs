use focus_grid::{
    create_home_window_controller, Direction, GridItem, GrowDirection, LayoutGridBuilder,
    LayoutTree, NavError, NavigationDirective, NavigationResult, Rect,
};

fn growable_x_tree() -> LayoutTree {
    let mut builder = LayoutGridBuilder::new(4, 2, "G".to_owned());
    builder.set_growable(2, 1, GrowDirection::GrowX).unwrap();
    builder.build().unwrap()
}

fn rect_of(tree: &LayoutTree, x: usize, y: usize, expect_id: &str) -> Rect {
    match tree.nodes[tree.root].item_at(x, y).unwrap() {
        Some(GridItem::Element(id, rect)) => {
            assert_eq!(id, expect_id);
            *rect
        }
        other => panic!("unexpected occupant at {}, {}: {:?}", x, y, other),
    }
}

#[test]
fn sequential_inserts_advance_wrap_and_expand() {
    let mut tree = growable_x_tree();
    let root = tree.root;

    // Two items fill the first band, strictly advancing along x.
    tree.nodes[root].insert_to_growable_grid("g1").unwrap();
    assert_eq!(rect_of(&tree, 0, 0, "g1"), Rect::new(0, 1, 0, 0).unwrap());
    assert_eq!(tree.nodes[root].grid.y_size, 2);

    tree.nodes[root].insert_to_growable_grid("g2").unwrap();
    assert_eq!(rect_of(&tree, 2, 0, "g2"), Rect::new(2, 3, 0, 0).unwrap());
    assert_eq!(tree.nodes[root].grid.y_size, 2);

    // The band is full: the next item wraps to the second band, no expansion.
    tree.nodes[root].insert_to_growable_grid("g3").unwrap();
    assert_eq!(rect_of(&tree, 0, 1, "g3"), Rect::new(0, 1, 1, 1).unwrap());
    assert_eq!(tree.nodes[root].grid.y_size, 2);

    tree.nodes[root].insert_to_growable_grid("g4").unwrap();
    assert_eq!(rect_of(&tree, 2, 1, "g4"), Rect::new(2, 3, 1, 1).unwrap());
    assert_eq!(tree.nodes[root].grid.y_size, 2);

    // Every band is full: exactly one expansion by one item height.
    tree.nodes[root].insert_to_growable_grid("g5").unwrap();
    assert_eq!(rect_of(&tree, 0, 2, "g5"), Rect::new(0, 1, 2, 2).unwrap());
    assert_eq!(tree.nodes[root].grid.x_size, 4);
    assert_eq!(tree.nodes[root].grid.y_size, 3);

    // The five rectangles are pairwise disjoint: each cell holds one item.
    let rects = [
        Rect::new(0, 1, 0, 0).unwrap(),
        Rect::new(2, 3, 0, 0).unwrap(),
        Rect::new(0, 1, 1, 1).unwrap(),
        Rect::new(2, 3, 1, 1).unwrap(),
        Rect::new(0, 1, 2, 2).unwrap(),
    ];
    for (i, r1) in rects.iter().enumerate() {
        for (j, r2) in rects.iter().enumerate() {
            if i != j {
                for x in r1.x_start..r1.x_end + 1 {
                    for y in r1.y_start..r1.y_end + 1 {
                        let inside = r2.x_start <= x
                            && x <= r2.x_end
                            && r2.y_start <= y
                            && y <= r2.y_end;
                        assert!(!inside, "rects {} and {} overlap at {}, {}", i, j, x, y);
                    }
                }
            }
        }
    }
}

#[test]
fn grow_y_wraps_and_expands_rightward() {
    let mut builder = LayoutGridBuilder::new(2, 4, "G".to_owned());
    builder.set_growable(1, 2, GrowDirection::GrowY).unwrap();
    let mut tree = builder.build().unwrap();
    let root = tree.root;

    tree.nodes[root].insert_to_growable_grid("a").unwrap();
    assert_eq!(rect_of(&tree, 0, 0, "a"), Rect::new(0, 0, 0, 1).unwrap());
    tree.nodes[root].insert_to_growable_grid("b").unwrap();
    assert_eq!(rect_of(&tree, 0, 2, "b"), Rect::new(0, 0, 2, 3).unwrap());
    tree.nodes[root].insert_to_growable_grid("c").unwrap();
    assert_eq!(rect_of(&tree, 1, 0, "c"), Rect::new(1, 1, 0, 1).unwrap());
    assert_eq!(tree.nodes[root].grid.x_size, 2);
    tree.nodes[root].insert_to_growable_grid("d").unwrap();
    assert_eq!(rect_of(&tree, 1, 2, "d"), Rect::new(1, 1, 2, 3).unwrap());
    tree.nodes[root].insert_to_growable_grid("e").unwrap();
    assert_eq!(rect_of(&tree, 2, 0, "e"), Rect::new(2, 2, 0, 1).unwrap());
    assert_eq!(tree.nodes[root].grid.x_size, 3);
    assert_eq!(tree.nodes[root].grid.y_size, 4);
}

#[test]
fn insert_rejects_node_without_grow_config() {
    let mut builder = LayoutGridBuilder::new(3, 3, "L".to_owned());
    builder
        .add_element(Rect::new(0, 0, 0, 0).unwrap(), "a".to_owned())
        .unwrap();
    let mut tree = builder.build().unwrap();
    let root = tree.root;
    assert!(!tree.nodes[root].is_growable());
    let r = tree.nodes[root].insert_to_growable_grid("x");
    assert!(matches!(r, Err(NavError::NotGrowable)));
}

#[test]
fn home_controller_inserts_and_navigates_into_games() {
    let mut controller = create_home_window_controller().unwrap();
    assert_eq!(
        controller.get_current_focus_id().as_deref(),
        Some("BTN@GAMES")
    );

    // The games area is populated at run time, outside the navigation path.
    let games = controller.get_sublayout_by_id("Home@Games").unwrap();
    controller.insert_elem_into(games, "GAME@aaaa").unwrap();
    controller.insert_elem_into(games, "GAME@bbbb").unwrap();

    // Down from the games button enters the games grid on its first item.
    let res = controller
        .navigate(NavigationDirective::Direction(Direction::Down))
        .unwrap();
    assert!(matches!(res, NavigationResult::AcrossLayout(ref id, _) if id == "GAME@aaaa"));

    let res = controller
        .navigate(NavigationDirective::Direction(Direction::Right))
        .unwrap();
    assert!(matches!(res, NavigationResult::WithinLayout(ref id) if id == "GAME@bbbb"));

    // The focused node is the growable games grid now, so inserting through
    // the current-node path appends the next item beside the others.
    controller.insert_elem("GAME@cccc").unwrap();
    let res = controller
        .navigate(NavigationDirective::Direction(Direction::Right))
        .unwrap();
    assert!(matches!(res, NavigationResult::WithinLayout(ref id) if id == "GAME@cccc"));
}

#[test]
fn insert_on_root_focused_controller_is_rejected() {
    let mut controller = create_home_window_controller().unwrap();
    // The root node holds focus and has no grow configuration.
    let r = controller.insert_elem("GAME@zzzz");
    assert!(matches!(r, Err(NavError::NotGrowable)));
}

use crate::errors::NavError;
use crate::geometry::Rect;
use crate::layout::{
    grow_ok, insert_effect, sublayout_lookup, GridItem, GrowDirection, LayoutGrid,
};
use crate::builder::{
    builder_ok, builder_rect, builder_rect_count, built_node_matches, LayoutGridBuilder,
};
use crate::tree::{
    arena_wf_node, direction_outcome, lemma_focus_keeps_tree_wf, nav_frame, noop_outcome,
    LayoutTree, NavigationDirective, NavigationResult,
};
use vstd::prelude::*;

verus! {

/// The externally visible entry point of the engine: owns the layout tree,
/// tracks which node currently holds focus, and caches the last resolved
/// focus identifier for external consumers.
#[derive(Debug)]
pub struct NavigationController {
    pub tree: LayoutTree,
    pub current_layout_ref: usize,
    pub current_focus_id: Option<String>,
}

impl NavigationController {
    /// The tree is well formed and the current-node pointer is real.
    pub open spec fn wf(self) -> bool {
        &&& self.tree.wf()
        &&& self.current_layout_ref < self.tree.nodes.len()
    }

    /// The node that currently holds focus.
    pub open spec fn current_node(self) -> LayoutGrid {
        self.tree.nodes@[self.current_layout_ref as int]
    }

    /// Wraps a built tree: points the root node's focus at the origin cell
    /// and resolves it once, so the controller starts with a real focus.
    /// Fails when the origin cell of the root grid holds no element.
    pub fn new(root_layout: LayoutTree) -> (r: Result<Self, NavError>)
        requires
            root_layout.wf(),
        ensures
            r is Ok <==> root_layout.nodes@[root_layout.root as int].is_element_at(0, 0),
            r matches Ok(c) ==> {
                &&& c.wf()
                &&& c.current_layout_ref == root_layout.root
                &&& c.tree.root == root_layout.root
                &&& crate::tree::focus_set(root_layout, c.tree, root_layout.root as int, 0, 0)
                &&& (c.current_focus_id matches Some(id) && id@ == root_layout.nodes@[
                    root_layout.root as int
                ].element_id_at(0, 0))
            },
            (root_layout.nodes@[root_layout.root as int].cell(0, 0) is None) ==> r == Err::<
                Self,
                NavError,
            >(NavError::EmptyFocusCell),
            root_layout.nodes@[root_layout.root as int].is_sublayout_at(0, 0) ==> r == Err::<
                Self,
                NavError,
            >(NavError::FocusOnSublayout),
    {
        let mut tree = root_layout;
        let root = tree.root;
        proof {
            assert(arena_wf_node(tree.nodes@, root as int));
        }
        // The origin cell is the default focus when the application starts.
        let sp = tree.nodes[root].set_point(0, 0);
        assert(sp is Ok);
        proof {
            lemma_focus_keeps_tree_wf(root_layout, tree, root as int);
        }
        let mut ret = NavigationController {
            tree,
            current_layout_ref: root,
            current_focus_id: None,
        };
        match ret.navigate(NavigationDirective::Noop) {
            Ok(_) => Ok(ret),
            Err(e) => Err(e),
        }
    }

    /// Forwards one directive to the node that currently holds focus, then
    /// records the outcome: a resolved focus identifier is cached, and a
    /// cross-node outcome moves the current-node pointer. `NoNextItem`
    /// changes nothing.
    pub fn navigate(&mut self, directive: NavigationDirective) -> (r: Result<
        NavigationResult,
        NavError,
    >)
        requires
            old(self).wf(),
        ensures
            final(self).wf(),
            nav_frame(old(self).tree, final(self).tree),
            final(self).tree.root == old(self).tree.root,
            (directive is Noop || (directive matches NavigationDirective::Button(b)
                && crate::layout::override_lookup(old(self).current_node().special_handler@, b)
                is None)) ==> noop_outcome(
                old(self).tree,
                old(self).current_layout_ref as int,
                final(self).tree,
                r,
            ),
            directive matches NavigationDirective::Direction(d) ==> direction_outcome(
                old(self).tree,
                old(self).current_layout_ref as int,
                d,
                final(self).tree,
                r,
                1,
            ),
            r matches Ok(res) ==> match res {
                NavigationResult::WithinLayout(s) => final(self).current_layout_ref == old(self).current_layout_ref && final(self).current_focus_id == Some(s) && final(self).current_node().focused_on_element() && final(self).current_node().focus_id()
                    == s@,
                NavigationResult::AcrossLayout(s, m) => final(self).current_layout_ref == m && m
                    < final(self).tree.nodes.len() && final(self).current_focus_id == Some(s)
                    && final(self).current_node().focused_on_element() && final(self).current_node().focus_id() == s@,
                NavigationResult::NoNextItem => final(self).current_layout_ref == old(self).current_layout_ref && final(self).current_focus_id == old(self).current_focus_id,
            },
            r is Err ==> final(self).current_layout_ref == old(self).current_layout_ref && final(self).current_focus_id == old(self).current_focus_id,
            r matches Err(e) ==> (e == NavError::NoFocus || e == NavError::EmptyFocusCell || e
                == NavError::FocusOnSublayout || e == NavError::DepthExceeded || e
                == NavError::UnknownChild),
    {
        proof {
            assert(arena_wf_node(old(self).tree.nodes@, old(self).current_layout_ref as int));
        }
        let fuel = self.tree.nav_budget();
        let node = self.current_layout_ref;
        match self.tree.navigate(node, directive, fuel) {
            Ok(NavigationResult::WithinLayout(s)) => {
                self.current_focus_id = Some(s.clone());
                Ok(NavigationResult::WithinLayout(s))
            },
            Ok(NavigationResult::AcrossLayout(s, sub)) => {
                self.current_layout_ref = sub;
                self.current_focus_id = Some(s.clone());
                Ok(NavigationResult::AcrossLayout(s, sub))
            },
            Ok(NavigationResult::NoNextItem) => Ok(NavigationResult::NoNextItem),
            Err(e) => Err(e),
        }
    }

    /// The last focus identifier a navigation call resolved.
    pub fn get_current_focus_id(&self) -> (r: &Option<String>)
        ensures
            *r == self.current_focus_id,
    {
        &self.current_focus_id
    }

    /// The arena index of the nested layout registered under `id` on the
    /// root node.
    pub fn get_sublayout_by_id(&self, id: &str) -> (r: Result<usize, NavError>)
        requires
            self.wf(),
        ensures
            r is Ok <==> sublayout_lookup(
                self.tree.nodes@[self.tree.root as int].sublayouts@,
                id@,
            ) is Some,
            r matches Ok(c) ==> c < self.tree.nodes.len(),
            r is Err ==> r == Err::<usize, NavError>(NavError::UnknownChild),
    {
        proof {
            assert(arena_wf_node(self.tree.nodes@, self.tree.root as int));
        }
        let root = self.tree.root;
        let c = self.tree.nodes[root].get_sublayout_by_id(id)?;
        proof {
            crate::layout::lemma_sublayout_lookup_member(
                self.tree.nodes@[root as int].sublayouts@,
                id@,
            );
        }
        Ok(c)
    }

    /// Appends one element to the node that currently holds focus, which
    /// must be growable.
    pub fn insert_elem(&mut self, focus_id: &str) -> (r: Result<(), NavError>)
        requires
            old(self).wf(),
        ensures
            final(self).wf(),
            r is Ok <==> grow_ok(old(self).current_node()),
            old(self).current_node().grow_config is None ==> r == Err::<(), NavError>(
                NavError::NotGrowable,
            ),
            final(self).current_layout_ref == old(self).current_layout_ref,
            final(self).current_focus_id == old(self).current_focus_id,
            final(self).tree.root == old(self).tree.root,
            final(self).tree.nodes.len() == old(self).tree.nodes.len(),
            forall|i: int|
                0 <= i < old(self).tree.nodes.len() && i != old(self).current_layout_ref
                    ==> #[trigger] final(self).tree.nodes@[i] == old(self).tree.nodes@[i],
            r is Ok ==> {
                &&& final(self).current_node().items@.len() == old(self).current_node().items@.len() + 1
                &&& (final(self).current_node().items@.last() matches GridItem::Element(id, _)
                    && id@ == focus_id@)
                &&& insert_effect(
                    old(self).current_node(),
                    final(self).current_node(),
                    final(self).current_node().items@.last().rect(),
                )
            },
    {
        let node = self.current_layout_ref;
        self.insert_elem_into(node, focus_id)
    }

    /// Appends one element to the growable node at arena index `layout`,
    /// independent of the navigation call path.
    pub fn insert_elem_into(&mut self, layout: usize, focus_id: &str) -> (r: Result<(), NavError>)
        requires
            old(self).wf(),
        ensures
            final(self).wf(),
            layout >= old(self).tree.nodes.len() ==> r == Err::<(), NavError>(
                NavError::DanglingNodeRef,
            ) && *final(self) == *old(self),
            layout < old(self).tree.nodes.len() ==> {
                &&& (r is Ok <==> grow_ok(old(self).tree.nodes@[layout as int]))
                &&& (old(self).tree.nodes@[layout as int].grow_config is None ==> r == Err::<
                    (),
                    NavError,
                >(NavError::NotGrowable))
                &&& (r is Ok ==> {
                    &&& final(self).tree.nodes@[layout as int].items@.len() == old(self).tree.nodes@[layout as int].items@.len() + 1
                    &&& (final(self).tree.nodes@[layout as int].items@.last()
                        matches GridItem::Element(id, _) && id@ == focus_id@)
                    &&& insert_effect(
                        old(self).tree.nodes@[layout as int],
                        final(self).tree.nodes@[layout as int],
                        final(self).tree.nodes@[layout as int].items@.last().rect(),
                    )
                })
            },
            final(self).current_layout_ref == old(self).current_layout_ref,
            final(self).current_focus_id == old(self).current_focus_id,
            final(self).tree.root == old(self).tree.root,
            final(self).tree.nodes.len() == old(self).tree.nodes.len(),
            forall|i: int|
                0 <= i < old(self).tree.nodes.len() && i != layout ==> #[trigger] final(self).tree.nodes@[i] == old(self).tree.nodes@[i],
    {
        if layout >= self.tree.nodes.len() {
            return Err(NavError::DanglingNodeRef);
        }
        proof {
            assert(arena_wf_node(self.tree.nodes@, layout as int));
        }
        let ghost pre = *self;
        let r = self.tree.nodes[layout].insert_to_growable_grid(focus_id);
        proof {
            let post = self.tree.nodes@[layout as int];
            let g0 = pre.tree.nodes@[layout as int];
            assert forall|i: int|
                0 <= i < self.tree.nodes@.len() implies arena_wf_node(self.tree.nodes@, i) by {
                assert(arena_wf_node(pre.tree.nodes@, i));
                if i != layout {
                    assert(self.tree.nodes@[i] == pre.tree.nodes@[i]);
                    crate::tree::lemma_wf_node_extends(pre.tree.nodes@, self.tree.nodes@, i);
                } else {
                    assert forall|q: int|
                        0 <= q < post.items.len() implies match #[trigger] post.items@[q] {
                        GridItem::Sublayout(c, _) => 0 <= c < self.tree.nodes@.len(),
                        GridItem::Element(_, _) => true,
                    } by {
                        if q < g0.items@.len() {
                            assert(post.items@[q] == g0.items@[q]);
                        }
                    }
                    assert forall|q: int|
                        0 <= q < post.sublayouts@.len() implies (
                    #[trigger] post.sublayouts@[q]).1 < post.items.len()
                        && post.items@[post.sublayouts@[q].1 as int] matches GridItem::Sublayout(
                        _,
                        _,
                    ) by {
                        assert(post.sublayouts@[q] == g0.sublayouts@[q]);
                        assert(post.items@[g0.sublayouts@[q].1 as int] == g0.items@[
                            g0.sublayouts@[q].1 as int
                        ]);
                    }
                }
            }
        }
        r
    }
}

/// The home window layout: a top row of buttons over a growable games grid,
/// wrapped in a controller with the focus at the games button.
pub fn create_home_window_controller() -> (r: Result<NavigationController, NavError>)
    ensures
        r is Ok,
        r matches Ok(c) ==> {
            &&& c.wf()
            &&& c.current_layout_ref == c.tree.root
            &&& (c.current_focus_id matches Some(id) && id@ == "BTN@GAMES"@)
            &&& {
                let root = c.tree.nodes@[c.tree.root as int];
                &&& root.grid.x_size == 4
                &&& root.grid.y_size == 6
                &&& root.items@.len() == 4
                &&& (root.items@[0] matches GridItem::Element(id0, r0) && id0@ == "BTN@GAMES"@
                    && r0 == (Rect { x_start: 0, x_end: 0, y_start: 0, y_end: 0 }))
                &&& (root.items@[1] matches GridItem::Element(id1, r1) && id1@
                    == "BTN@RECENTLY_PLAYED"@ && r1 == (Rect {
                    x_start: 1,
                    x_end: 1,
                    y_start: 0,
                    y_end: 0,
                }))
                &&& (root.items@[2] matches GridItem::Element(id2, r2) && id2@ == "BTN@SETTINGS"@
                    && r2 == (Rect { x_start: 3, x_end: 3, y_start: 0, y_end: 0 }))
                &&& root.sublayouts@.len() == 1
                &&& root.sublayouts@[0].0@ == "Home@Games"@
                &&& root.sublayouts@[0].1 == 3
                &&& (root.items@[3] matches GridItem::Sublayout(games, gr) && gr == (Rect {
                    x_start: 0,
                    x_end: 3,
                    y_start: 1,
                    y_end: 5,
                }) && games < c.tree.nodes.len() && {
                    let gnode = c.tree.nodes@[games as int];
                    &&& gnode.grid.x_size == 7
                    &&& gnode.grid.y_size == 10
                    &&& (gnode.grow_config matches Some(gc) && gc.item_x == 1 && gc.item_y == 1
                        && gc.grow_direction == GrowDirection::GrowX)
                    &&& gnode.parent == Some(c.tree.root)
                })
            }
        },
{
    let mut builder = LayoutGridBuilder::new(4, 6, "Home".to_owned());
    let games_btn = Rect::new(0, 0, 0, 0)?;
    builder.add_element(games_btn, "BTN@GAMES".to_owned())?;
    let recent = Rect::new(1, 1, 0, 0)?;
    builder.add_element(recent, "BTN@RECENTLY_PLAYED".to_owned())?;
    let settings = Rect::new(3, 3, 0, 0)?;
    builder.add_element(settings, "BTN@SETTINGS".to_owned())?;
    let games_area = Rect::new(0, 3, 1, 5)?;
    let sub = builder.with_sublayout(games_area, "Home@Games".to_owned(), 7, 10);
    sub.set_growable(1, 1, GrowDirection::GrowX)?;
    let ghost gb = builder;
    proof {
        assert(gb.rects@.len() == 3);
        assert(gb.sublayouts@.len() == 1);
        assert(builder_ok(gb)) by {
            assert forall|j: int|
                0 <= j < builder_rect_count(gb) implies (#[trigger] builder_rect(gb, j)).wf()
                    && builder_rect(gb, j).x_end < gb.size_x && builder_rect(gb, j).y_end
                    < gb.size_y by {
                if j == 0 {
                } else if j == 1 {
                } else if j == 2 {
                } else {
                    assert(j == 3);
                }
            }
            assert forall|j: int, j2: int|
                0 <= j < j2 < builder_rect_count(gb) implies (#[trigger] builder_rect(
                gb,
                j,
            )).disjoint(#[trigger] builder_rect(gb, j2)) by {
                let r1 = builder_rect(gb, j);
                let r2 = builder_rect(gb, j2);
                assert forall|x: int, y: int| !(r1.contains(x, y) && r2.contains(x, y)) by {}
            }
            assert forall|kk: int|
                0 <= kk < gb.sublayouts@.len() implies builder_ok(
                (#[trigger] gb.sublayouts@[kk]).2,
            ) by {
                assert(kk == 0);
                let sb = gb.sublayouts@[0].2;
                assert(builder_ok(sb)) by {
                    assert(builder_rect_count(sb) == 0);
                }
            }
        };
    }
    let tree = builder.build()?;
    let ghost gt = tree;
    proof {
        // The origin cell of the root grid holds the games button.
        let rootn = gt.nodes@[0];
        assert(rootn.items@[0] == GridItem::Element(gb.rects@[0].1, gb.rects@[0].0));
        assert(rootn.items@[0].rect().contains(0, 0));
        assert(rootn.cell(0, 0) == Some(0usize));
        assert(rootn.is_element_at(0, 0));
        assert(rootn.element_id_at(0, 0) == gb.rects@[0].1@);
    }
    let c = NavigationController::new(tree);
    proof {
        if c is Ok {
            let ctrl = c->Ok_0;
            // The controller only moved the root's focus point: every grid,
            // item table and child table is the built one.
            assert(ctrl.tree.nodes@[0].items == gt.nodes@[0].items);
            assert(ctrl.tree.nodes@[0].sublayouts == gt.nodes@[0].sublayouts);
            assert(ctrl.tree.nodes@[0].grid == gt.nodes@[0].grid);
            assert(built_node_matches(gt.nodes@, 0, gb));
            assert(gt.nodes@[0].items@[gb.rects@.len() + 0int] matches GridItem::Sublayout(
                games,
                _,
            ) && 0 < games < gt.nodes.len() && built_node_matches(
                gt.nodes@,
                games as int,
                gb.sublayouts@[0].2,
            ));
            assert(gb.rects@.len() + 0int == 3);
            assert(gt.nodes@[0].items@[3] matches GridItem::Sublayout(games, _) && 0 < games
                < gt.nodes.len() && ctrl.tree.nodes@[games as int] == gt.nodes@[games as int]);
        }
    }
    c
}

} // verus!

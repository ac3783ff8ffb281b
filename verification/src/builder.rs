use crate::errors::NavError;
use crate::geometry::Rect;
use crate::layout::{FocusID, GridItem, GrowDirection, LayoutGrid, LayoutID, COORD_LIMIT};
use crate::tree::{arena_wf_node, lemma_wf_node_extends, LayoutTree};
use vstd::prelude::*;

verus! {

/// A declarative description of one layout node: its grid size, its fixed
/// elements or its grow configuration (never both), and its nested
/// sub-builders. Only the root builder can build; sub-builders are attached
/// to a parent, so that every built child has a parent link to ascend
/// through.
#[derive(Debug)]
pub struct LayoutGridBuilder {
    pub size_x: usize,
    pub size_y: usize,
    pub rects: Vec<(Rect, FocusID)>,
    pub sublayouts: Vec<(Rect, LayoutID, LayoutGridBuilder)>,
    pub layout_id: LayoutID,
    pub is_root_builder: bool,
    pub growable_config: Option<(usize, usize, GrowDirection)>,
}

/// What one builder promises of the node built from it, at index `n` of the
/// arena: the node carries the builder's identity and grow configuration and
/// starts without a focus point; its item table lists the builder's fixed
/// elements first and its sublayouts after them, each under its declared
/// rectangle, with every cell of that rectangle pointing at it; the child
/// table registers each sublayout under its identifier; and each child node,
/// placed after this one, matches its own builder in turn.
pub open spec fn built_node_matches(nodes: Seq<LayoutGrid>, n: int, b: LayoutGridBuilder) -> bool
    decreases b,
    via built_node_matches_decreases
{
    let g = nodes[n];
    &&& g.grid.x_size == b.size_x
    &&& g.grid.y_size == b.size_y
    &&& g.layout_id == b.layout_id
    &&& g.layout_state is None
    &&& g.special_handler@.len() == 0
    &&& match b.growable_config {
        Some((gx, gy, dir)) => g.grow_config matches Some(gc) && gc.item_x == gx && gc.item_y == gy
            && gc.grow_direction == dir,
        None => g.grow_config is None,
    }
    &&& g.items@.len() == b.rects@.len() + b.sublayouts@.len()
    &&& forall|j: int|
        0 <= j < b.rects@.len() ==> #[trigger] g.items@[j] == GridItem::Element(
            b.rects@[j].1,
            b.rects@[j].0,
        )
    &&& forall|k: int|
        0 <= k < b.sublayouts@.len() ==> (#[trigger] g.items@[b.rects@.len() + k]
            matches GridItem::Sublayout(c, r) && r == b.sublayouts@[k].0 && n < c < nodes.len()
            && nodes[c as int].layout_id == b.sublayouts@[k].2.layout_id && nodes[c as int].parent
            == Some(n as usize) && built_node_matches(nodes, c as int, b.sublayouts@[k].2))
    &&& g.sublayouts@.len() == b.sublayouts@.len()
    &&& forall|k: int|
        0 <= k < b.sublayouts@.len() ==> (#[trigger] g.sublayouts@[k]).0 == b.sublayouts@[k].1
            && g.sublayouts@[k].1 == b.rects@.len() + k
    &&& forall|j: int, x: int, y: int|
        #![trigger g.items@[j], g.cell(x, y)]
        0 <= j < g.items@.len() && g.items@[j].rect().contains(x, y) ==> g.cell(x, y) == Some(
            j as usize,
        )
}

#[via_fn]
proof fn built_node_matches_decreases(nodes: Seq<LayoutGrid>, n: int, b: LayoutGridBuilder) {
    broadcast use vstd::seq::axiom_seq_index_decreases;

    assert forall|k: int|
        0 <= k < b.sublayouts@.len() implies decreases_to!(b => (#[trigger] b.sublayouts@[k]).2) by {
        assert(decreases_to!(b => b.sublayouts));
        assert(decreases_to!(b.sublayouts => b.sublayouts@));
        assert(decreases_to!(b.sublayouts@ => b.sublayouts@[k]));
        assert(decreases_to!(b.sublayouts@[k] => b.sublayouts@[k].2));
    }
}

/// A built node keeps matching its builder while the arena grows or changes
/// in front of it: the node and its whole subtree sit at its index and after,
/// untouched.
proof fn lemma_built_node_matches_stable(
    s1: Seq<LayoutGrid>,
    s2: Seq<LayoutGrid>,
    n: int,
    b: LayoutGridBuilder,
)
    requires
        built_node_matches(s1, n, b),
        0 <= n < s1.len(),
        s1.len() <= s2.len(),
        forall|i: int| n <= i < s1.len() ==> s2[i] == s1[i],
    ensures
        built_node_matches(s2, n, b),
    decreases b,
{
    broadcast use vstd::seq::axiom_seq_index_decreases;

    assert(s2[n] == s1[n]);
    assert forall|k: int|
        0 <= k < b.sublayouts@.len() implies (#[trigger] s2[n].items@[b.rects@.len() + k]
            matches GridItem::Sublayout(c, r) && r == b.sublayouts@[k].0 && n < c < s2.len()
            && s2[c as int].layout_id == b.sublayouts@[k].2.layout_id && s2[c as int].parent
            == Some(n as usize) && built_node_matches(s2, c as int, b.sublayouts@[k].2)) by {
        assert(s1[n].items@[b.rects@.len() + k] matches GridItem::Sublayout(c, r) && r
            == b.sublayouts@[k].0 && n < c < s1.len() && s1[c as int].layout_id
            == b.sublayouts@[k].2.layout_id && s1[c as int].parent == Some(n as usize)
            && built_node_matches(s1, c as int, b.sublayouts@[k].2));
        let c = s1[n].items@[b.rects@.len() + k]->Sublayout_0;
        assert(s2[c as int] == s1[c as int]);
        assert(decreases_to!(b => b.sublayouts));
        assert(decreases_to!(b.sublayouts => b.sublayouts@));
        assert(decreases_to!(b.sublayouts@ => b.sublayouts@[k]));
        assert(decreases_to!(b.sublayouts@[k] => b.sublayouts@[k].2));
        lemma_built_node_matches_stable(s1, s2, c as int, b.sublayouts@[k].2);
    }
}

/// The rectangle of the builder's `j`-th occupant: fixed elements first,
/// then nested grids.
pub open spec fn builder_rect(b: LayoutGridBuilder, j: int) -> Rect {
    if j < b.rects@.len() {
        b.rects@[j].0
    } else {
        b.sublayouts@[j - b.rects@.len()].0
    }
}

/// How many occupants the builder describes.
pub open spec fn builder_rect_count(b: LayoutGridBuilder) -> int {
    b.rects@.len() + b.sublayouts@.len() as int
}

/// The layouts building accepts: grid sizes positive and within the
/// coordinate range, every occupant rectangle well formed, ending inside the
/// grid and disjoint from every other, and every sub-builder acceptable in
/// turn.
pub open spec fn builder_ok(b: LayoutGridBuilder) -> bool
    decreases b,
    via builder_ok_decreases
{
    &&& 1 <= b.size_x <= COORD_LIMIT
    &&& 1 <= b.size_y <= COORD_LIMIT
    &&& forall|j: int|
        0 <= j < builder_rect_count(b) ==> (#[trigger] builder_rect(b, j)).wf() && builder_rect(
            b,
            j,
        ).x_end < b.size_x && builder_rect(b, j).y_end < b.size_y
    &&& forall|j: int, j2: int|
        0 <= j < j2 < builder_rect_count(b) ==> (#[trigger] builder_rect(b, j)).disjoint(
            #[trigger] builder_rect(b, j2),
        )
    &&& forall|k: int| 0 <= k < b.sublayouts@.len() ==> builder_ok((#[trigger] b.sublayouts@[k]).2)
}

#[via_fn]
proof fn builder_ok_decreases(b: LayoutGridBuilder) {
    broadcast use vstd::seq::axiom_seq_index_decreases;

    assert forall|k: int|
        0 <= k < b.sublayouts@.len() implies decreases_to!(b => (#[trigger] b.sublayouts@[k]).2) by {
        assert(decreases_to!(b => b.sublayouts));
        assert(decreases_to!(b.sublayouts => b.sublayouts@));
        assert(decreases_to!(b.sublayouts@ => b.sublayouts@[k]));
        assert(decreases_to!(b.sublayouts@[k] => b.sublayouts@[k].2));
    }
}

impl LayoutGridBuilder {
    /// A root builder for a grid of the given size, with nothing added yet.
    pub fn new(size_x: usize, size_y: usize, layout_id: LayoutID) -> (b: Self)
        ensures
            b.size_x == size_x,
            b.size_y == size_y,
            b.rects@.len() == 0,
            b.sublayouts@.len() == 0,
            b.layout_id == layout_id,
            b.is_root_builder,
            b.growable_config is None,
    {
        LayoutGridBuilder {
            size_x,
            size_y,
            rects: Vec::new(),
            sublayouts: Vec::new(),
            layout_id,
            is_root_builder: true,
            growable_config: None,
        }
    }

    /// A builder for a nested node: like `new`, but not buildable on its own.
    pub fn new_sub(size_x: usize, size_y: usize, layout_id: LayoutID) -> (b: Self)
        ensures
            b.size_x == size_x,
            b.size_y == size_y,
            b.rects@.len() == 0,
            b.sublayouts@.len() == 0,
            b.layout_id == layout_id,
            !b.is_root_builder,
            b.growable_config is None,
    {
        LayoutGridBuilder {
            size_x,
            size_y,
            rects: Vec::new(),
            sublayouts: Vec::new(),
            layout_id,
            is_root_builder: false,
            growable_config: None,
        }
    }

    /// Configures this node as growable: items of `size_x` by `size_y` are
    /// appended along `dir` at run time. Rejected once fixed elements were
    /// added.
    pub fn set_growable(&mut self, size_x: usize, size_y: usize, dir: GrowDirection) -> (r: Result<
        (),
        NavError,
    >)
        ensures
            r is Ok <==> old(self).rects@.len() == 0,
            r is Err ==> *final(self) == *old(self) && r == Err::<(), NavError>(
                NavError::MixedGrowable,
            ),
            r is Ok ==> *final(self) == (LayoutGridBuilder {
                growable_config: Some((size_x, size_y, dir)),
                ..*old(self)
            }),
    {
        if !self.rects.is_empty() {
            return Err(NavError::MixedGrowable);
        }
        self.growable_config = Some((size_x, size_y, dir));
        Ok(())
    }

    /// Adds one fixed element covering `rect`. Rejected on a growable node,
    /// and for a malformed rectangle.
    pub fn add_element(&mut self, rect: Rect, focus_id: FocusID) -> (r: Result<(), NavError>)
        ensures
            r is Ok <==> old(self).growable_config is None && rect.wf(),
            r is Err && old(self).growable_config is Some ==> r == Err::<(), NavError>(
                NavError::MixedGrowable,
            ),
            r is Err && old(self).growable_config is None ==> r == Err::<(), NavError>(
                NavError::InvalidRect,
            ),
            r is Err ==> *final(self) == *old(self),
            r is Ok ==> {
                &&& final(self).rects@ == old(self).rects@.push((rect, focus_id))
                &&& final(self).sublayouts == old(self).sublayouts
                &&& final(self).size_x == old(self).size_x
                &&& final(self).size_y == old(self).size_y
                &&& final(self).layout_id == old(self).layout_id
                &&& final(self).is_root_builder == old(self).is_root_builder
                &&& final(self).growable_config == old(self).growable_config
            },
    {
        if self.growable_config.is_some() {
            return Err(NavError::MixedGrowable);
        }
        if rect.x_end < rect.x_start || rect.y_end < rect.y_start {
            return Err(NavError::InvalidRect);
        }
        self.rects.push((rect, focus_id));
        Ok(())
    }

    /// Attaches a nested grid of `size_x` by `size_y` cells covering `rect`,
    /// registered under `layout_id`, and hands back the nested builder for
    /// further configuration.
    pub fn with_sublayout(
        &mut self,
        rect: Rect,
        layout_id: LayoutID,
        size_x: usize,
        size_y: usize,
    ) -> (sub: &mut LayoutGridBuilder)
        ensures
            sub.size_x == size_x,
            sub.size_y == size_y,
            sub.rects@.len() == 0,
            sub.sublayouts@.len() == 0,
            sub.layout_id == layout_id,
            !sub.is_root_builder,
            sub.growable_config is None,
            final(self).sublayouts@ == old(self).sublayouts@.push(
                (rect, layout_id, *final(sub)),
            ),
            final(self).rects == old(self).rects,
            final(self).size_x == old(self).size_x,
            final(self).size_y == old(self).size_y,
            final(self).layout_id == old(self).layout_id,
            final(self).is_root_builder == old(self).is_root_builder,
            final(self).growable_config == old(self).growable_config,
    {
        let child = LayoutGridBuilder::new_sub(size_x, size_y, layout_id.clone());
        self.sublayouts.push((rect, layout_id, child));
        let last = self.sublayouts.len() - 1;
        &mut self.sublayouts[last].2
    }

    /// Builds the whole tree this builder describes: allocates every node,
    /// fills fixed elements and nested grids, and wires parent links and
    /// child tables. Only the root builder may build; a sub-builder must be
    /// attached to a parent instead, or exit navigation could never ascend
    /// from its node.
    pub fn build(self) -> (r: Result<LayoutTree, NavError>)
        ensures
            r is Ok <==> self.is_root_builder && builder_ok(self),
            !self.is_root_builder ==> r == Err::<LayoutTree, NavError>(NavError::NonRootBuild),
            r matches Ok(t) ==> {
                &&& t.wf()
                &&& t.root == 0
                &&& t.nodes@[0].parent is None
                &&& built_node_matches(t.nodes@, 0, self)
            },
    {
        if !self.is_root_builder {
            return Err(NavError::NonRootBuild);
        }
        let mut arena: Vec<LayoutGrid> = Vec::new();
        let root = build_sub(self, &mut arena, None)?;
        Ok(LayoutTree { nodes: arena, root })
    }
}

/// Builds the node this builder describes (and, recursively, its whole
/// subtree) into the arena, wiring `parent` as its parent link; returns the
/// new node's index. Earlier arena entries are never touched.
fn build_sub(b: LayoutGridBuilder, arena: &mut Vec<LayoutGrid>, parent: Option<usize>) -> (r:
    Result<usize, NavError>)
    requires
        forall|i: int| 0 <= i < old(arena)@.len() ==> arena_wf_node(old(arena)@, i),
        match parent {
            Some(p) => p < old(arena)@.len(),
            None => true,
        },
    ensures
        old(arena)@.len() <= final(arena)@.len(),
        forall|i: int| 0 <= i < old(arena)@.len() ==> final(arena)@[i] == old(arena)@[i],
        forall|i: int| 0 <= i < final(arena)@.len() ==> arena_wf_node(final(arena)@, i),
        r is Ok <==> builder_ok(b),
        r matches Ok(n) ==> {
            &&& n == old(arena)@.len()
            &&& n < final(arena)@.len()
            &&& final(arena)@[n as int].parent == parent
            &&& built_node_matches(final(arena)@, n as int, b)
        },
    decreases b,
{
    let ghost gb = b;
    let mut node = match &b.growable_config {
        Some((gx, gy, dir)) => LayoutGrid::new_growable(
            b.size_x,
            b.size_y,
            b.layout_id.clone(),
            *gx,
            *gy,
            *dir,
        )?,
        None => LayoutGrid::new(b.size_x, b.size_y, b.layout_id.clone())?,
    };
    node.parent = parent;

    // Fixed elements, in the order they were added.
    let rects = b.rects;
    let mut j: usize = 0;
    while j < rects.len()
        invariant
            gb == b,
            rects@ == gb.rects@,
            arena@ == old(arena)@,
            forall|i: int| 0 <= i < old(arena)@.len() ==> arena_wf_node(old(arena)@, i),
            j <= rects@.len(),
            node.wf(),
            node.grid.x_size == gb.size_x,
            node.grid.y_size == gb.size_y,
            node.layout_id == gb.layout_id,
            node.layout_state is None,
            node.special_handler@.len() == 0,
            node.parent == parent,
            node.sublayouts@.len() == 0,
            grow_matches(gb.growable_config, node.grow_config),
            node.items@.len() == j,
            forall|q: int|
                0 <= q < j ==> #[trigger] node.items@[q] == GridItem::Element(
                    rects@[q].1,
                    rects@[q].0,
                ),
            forall|q: int, x: int, y: int|
                #![trigger node.items@[q], node.cell(x, y)]
                0 <= q < j && node.items@[q].rect().contains(x, y) ==> node.cell(x, y) == Some(
                    q as usize,
                ),
        decreases rects@.len() - j,
    {
        let rect = rects[j].0;
        proof {
            assert(builder_rect(gb, j as int) == rect);
        }
        if rect.x_end < rect.x_start || rect.y_end < rect.y_start {
            proof {
                assert(!builder_ok(b));
            }
            return Err(NavError::InvalidRect);
        }
        let focus_id = rects[j].1.clone();
        let idx = node.items.len();
        let ghost prefill = node;
        match node.grid.fill(rect, idx) {
            Ok(()) => {},
            Err(e) => {
                proof {
                    lemma_fill_failure_refutes_builder(prefill, gb, j as int, rect);
                }
                return Err(e);
            },
        }
        node.items.push(GridItem::Element(focus_id, rect));
        proof {
            lemma_attach_keeps_node(prefill, node, rect);
        }
        j = j + 1;
    }

    let my_index = arena.len();
    arena.push(node);
    proof {
        assert forall|i: int| 0 <= i < arena@.len() implies arena_wf_node(arena@, i) by {
            if i < old(arena)@.len() {
                lemma_wf_node_extends(old(arena)@, arena@, i);
            } else {
                assert(arena@[i] == node);
            }
        }
    }

    // Nested grids: build each child, then paint its rectangle here and
    // register it in the child table.
    let mut subs = b.sublayouts;
    let ghost all_subs = subs@;
    let mut k: usize = 0;
    proof {
        assert(subs@ == all_subs.skip(0));
    }
    while subs.len() > 0
        invariant
            gb == b,
            k + subs@.len() == all_subs.len(),
            subs@ == all_subs.skip(k as int),
            all_subs == gb.sublayouts@,
            my_index == old(arena)@.len(),
            my_index < arena@.len(),
            forall|i: int| 0 <= i < old(arena)@.len() ==> arena@[i] == old(arena)@[i],
            forall|i: int| 0 <= i < arena@.len() ==> arena_wf_node(arena@, i),
            match parent {
                Some(p) => p < old(arena)@.len(),
                None => true,
            },
            arena@[my_index as int].grid.x_size == gb.size_x,
            arena@[my_index as int].grid.y_size == gb.size_y,
            arena@[my_index as int].layout_id == gb.layout_id,
            arena@[my_index as int].layout_state is None,
            arena@[my_index as int].special_handler@.len() == 0,
            arena@[my_index as int].parent == parent,
            grow_matches(gb.growable_config, arena@[my_index as int].grow_config),
            arena@[my_index as int].items@.len() == rects@.len() + k,
            rects@ == gb.rects@,
            forall|q: int|
                0 <= q < rects@.len() ==> #[trigger] arena@[my_index as int].items@[q]
                    == GridItem::Element(rects@[q].1, rects@[q].0),
            forall|q: int|
                0 <= q < k ==> (#[trigger] arena@[my_index as int].items@[rects@.len() + q]
                    matches GridItem::Sublayout(c, r) && r == all_subs[q].0 && my_index < c
                    < arena@.len() && arena@[c as int].layout_id == all_subs[q].2.layout_id
                    && arena@[c as int].parent == Some(my_index) && built_node_matches(
                    arena@,
                    c as int,
                    all_subs[q].2,
                )),
            arena@[my_index as int].sublayouts@.len() == k,
            forall|q: int|
                0 <= q < k ==> (#[trigger] arena@[my_index as int].sublayouts@[q]).0
                    == all_subs[q].1 && arena@[my_index as int].sublayouts@[q].1 == rects@.len()
                    + q,
            forall|q: int, x: int, y: int|
                #![trigger arena@[my_index as int].items@[q], arena@[my_index as int].cell(x, y)]
                0 <= q < arena@[my_index as int].items@.len()
                    && arena@[my_index as int].items@[q].rect().contains(x, y)
                    ==> arena@[my_index as int].cell(x, y) == Some(q as usize),
            forall|q: int| 0 <= q < k ==> builder_ok((#[trigger] all_subs[q]).2),
        decreases subs@.len(),
    {
        let (sub_rect, sub_layout_id, sub_builder) = subs.remove(0);
        proof {
            assert(all_subs.skip(k as int)[0] == all_subs[k as int]);
            assert(sub_rect == all_subs[k as int].0);
            assert(builder_rect(gb, rects@.len() + k as int) == sub_rect);
        }
        if sub_rect.x_end < sub_rect.x_start || sub_rect.y_end < sub_rect.y_start {
            proof {
                assert(!builder_ok(b));
            }
            return Err(NavError::InvalidRect);
        }
        proof {
            broadcast use vstd::seq::axiom_seq_index_decreases;

            assert(sub_builder == gb.sublayouts@[k as int].2);
            assert(decreases_to!(gb => gb.sublayouts));
            assert(decreases_to!(gb.sublayouts => gb.sublayouts@));
            assert(decreases_to!(gb.sublayouts@ => gb.sublayouts@[k as int]));
            assert(decreases_to!(gb.sublayouts@[k as int] => gb.sublayouts@[k as int].2));
            assert(decreases_to!(gb => sub_builder));
        }
        let ghost at_call = arena@;
        let child = match build_sub(sub_builder, arena, Some(my_index)) {
            Ok(c) => c,
            Err(e) => {
                proof {
                    assert(!builder_ok(all_subs[k as int].2));
                    assert(!builder_ok(b));
                }
                return Err(e);
            },
        };
        let ghost at_attach = arena@;
        proof {
            assert(arena_wf_node(at_attach, my_index as int));
        }
        let idx = arena[my_index].items.len();
        let ghost prefill = arena@[my_index as int];
        match arena[my_index].grid.fill(sub_rect, idx) {
            Ok(()) => {},
            Err(e) => {
                proof {
                    assert forall|i: int|
                        0 <= i < arena@.len() implies arena_wf_node(arena@, i) by {
                        assert(arena_wf_node(at_attach, i));
                        assert(arena@[i] == at_attach[i]);
                        lemma_wf_node_extends(at_attach, arena@, i);
                    }
                    assert forall|q: int|
                        0 <= q < prefill.items@.len() implies (
                    #[trigger] prefill.items@[q]).rect() == builder_rect(gb, q) by {
                        if q < rects@.len() {
                            assert(prefill.items@[q] == GridItem::Element(
                                rects@[q].1,
                                rects@[q].0,
                            ));
                        } else {
                            assert(prefill.items@[rects@.len() + (q - rects@.len())]
                                matches GridItem::Sublayout(c, r) && r == all_subs[
                                q - rects@.len()
                            ].0);
                        }
                    }
                    lemma_fill_failure_refutes_builder(
                        prefill,
                        gb,
                        rects@.len() + k as int,
                        sub_rect,
                    );
                }
                return Err(e);
            },
        }
        arena[my_index].items.push(GridItem::Sublayout(child, sub_rect));
        arena[my_index].sublayouts.push((sub_layout_id, idx));
        proof {
            let post = arena@[my_index as int];
            lemma_attach_keeps_node(prefill, post, sub_rect);
            assert(arena_wf_node(arena@, my_index as int)) by {
                assert forall|q: int|
                    0 <= q < post.items.len() implies match #[trigger] post.items@[q] {
                    GridItem::Sublayout(c, _) => 0 <= c < arena@.len(),
                    GridItem::Element(_, _) => true,
                } by {
                    if q < prefill.items@.len() {
                        assert(post.items@[q] == prefill.items@[q]);
                        assert(arena_wf_node(at_attach, my_index as int));
                    } else {
                        assert(post.items@[q] == GridItem::Sublayout(child, sub_rect));
                    }
                }
                assert forall|q: int|
                    0 <= q < post.sublayouts@.len() implies (#[trigger] post.sublayouts@[q]).1
                        < post.items.len() && post.items@[post.sublayouts@[q].1 as int] matches GridItem::Sublayout(_, _) by {
                    if q < prefill.sublayouts@.len() {
                        assert(post.sublayouts@[q] == prefill.sublayouts@[q]);
                        assert(arena_wf_node(at_attach, my_index as int));
                        assert(post.items@[prefill.sublayouts@[q].1 as int]
                            == prefill.items@[prefill.sublayouts@[q].1 as int]);
                    } else {
                        assert(post.sublayouts@[q] == (sub_layout_id, idx));
                        assert(post.items@[idx as int] == GridItem::Sublayout(child, sub_rect));
                    }
                }
            }
            assert forall|i: int|
                0 <= i < arena@.len() implies arena_wf_node(arena@, i) by {
                if i != my_index {
                    assert(arena_wf_node(at_attach, i));
                    assert(arena@[i] == at_attach[i]);
                    lemma_wf_node_extends(at_attach, arena@, i);
                }
            }
            assert(subs@ == all_subs.skip(k as int).skip(1));
            assert(all_subs.skip(k as int).skip(1) =~= all_subs.skip(k as int + 1));
            assert(all_subs.skip(k as int)[0] == all_subs[k as int]);
            assert forall|q: int|
                0 <= q < k + 1 implies (#[trigger] arena@[my_index as int].items@[rects@.len()
                    + q] matches GridItem::Sublayout(c, r) && r == all_subs[q].0 && my_index < c
                    < arena@.len() && arena@[c as int].layout_id == all_subs[q].2.layout_id
                    && arena@[c as int].parent == Some(my_index) && built_node_matches(
                    arena@,
                    c as int,
                    all_subs[q].2,
                )) by {
                if q < k {
                    // an earlier child: its node and whole subtree lie behind
                    // the new one, untouched by this iteration
                    assert(at_call[my_index as int].items@[rects@.len() + q]
                        matches GridItem::Sublayout(c, r) && r == all_subs[q].0 && my_index < c
                        < at_call.len() && at_call[c as int].layout_id == all_subs[q].2.layout_id
                        && at_call[c as int].parent == Some(my_index) && built_node_matches(
                        at_call,
                        c as int,
                        all_subs[q].2,
                    ));
                    let c = at_call[my_index as int].items@[rects@.len() + q]->Sublayout_0;
                    assert(arena@[my_index as int].items@[rects@.len() + q] == at_call[
                        my_index as int
                    ].items@[rects@.len() + q]);
                    assert forall|i: int|
                        c <= i < at_call.len() implies arena@[i] == at_call[i] by {
                        assert(at_attach[i] == at_call[i]);
                        assert(arena@[i] == at_attach[i]);
                    }
                    lemma_built_node_matches_stable(at_call, arena@, c as int, all_subs[q].2);
                } else {
                    // the child attached in this iteration
                    assert(built_node_matches(at_attach, child as int, all_subs[k as int].2));
                    assert forall|i: int|
                        child <= i < at_attach.len() implies arena@[i] == at_attach[i] by {}
                    lemma_built_node_matches_stable(
                        at_attach,
                        arena@,
                        child as int,
                        all_subs[k as int].2,
                    );
                }
            }
        }
        k = k + 1;
    }
    proof {
        assert(built_node_matches(arena@, my_index as int, gb));
        let g = arena@[my_index as int];
        assert(arena_wf_node(arena@, my_index as int));
        assert forall|q: int|
            0 <= q < builder_rect_count(gb) implies (#[trigger] builder_rect(gb, q)).wf()
                && builder_rect(gb, q).x_end < gb.size_x && builder_rect(gb, q).y_end
                < gb.size_y by {
            assert(g.items@[q].rect() == builder_rect(gb, q)) by {
                if q < rects@.len() {
                    assert(g.items@[q] == GridItem::Element(rects@[q].1, rects@[q].0));
                } else {
                    assert(g.items@[rects@.len() + (q - rects@.len())]
                        matches GridItem::Sublayout(c, r) && r == all_subs[q - rects@.len()].0);
                }
            }
        }
        assert forall|j1: int, j2: int|
            0 <= j1 < j2 < builder_rect_count(gb) implies (#[trigger] builder_rect(
            gb,
            j1,
        )).disjoint(#[trigger] builder_rect(gb, j2)) by {
            assert(g.items@[j1].rect() == builder_rect(gb, j1)) by {
                if j1 < rects@.len() {
                    assert(g.items@[j1] == GridItem::Element(rects@[j1].1, rects@[j1].0));
                } else {
                    assert(g.items@[rects@.len() + (j1 - rects@.len())]
                        matches GridItem::Sublayout(c, r) && r == all_subs[j1 - rects@.len()].0);
                }
            }
            assert(g.items@[j2].rect() == builder_rect(gb, j2)) by {
                if j2 < rects@.len() {
                    assert(g.items@[j2] == GridItem::Element(rects@[j2].1, rects@[j2].0));
                } else {
                    assert(g.items@[rects@.len() + (j2 - rects@.len())]
                        matches GridItem::Sublayout(c, r) && r == all_subs[j2 - rects@.len()].0);
                }
            }
            assert forall|x: int, y: int|
                !(builder_rect(gb, j1).contains(x, y) && builder_rect(gb, j2).contains(
                    x,
                    y,
                )) by {
                if builder_rect(gb, j1).contains(x, y) && builder_rect(gb, j2).contains(x, y) {
                    assert(g.cell(x, y) == Some(j1 as usize));
                    assert(g.cell(x, y) == Some(j2 as usize));
                }
            }
        }
        assert(builder_ok(gb));
    }

    Ok(my_index)
}

/// A failed fill of the builder's `j`-th rectangle refutes the builder: the
/// rectangle either reaches outside the declared grid, or overlaps the
/// rectangle of one of the occupants already painted before it.
proof fn lemma_fill_failure_refutes_builder(
    g: LayoutGrid,
    b: LayoutGridBuilder,
    j: int,
    rect: Rect,
)
    requires
        g.wf(),
        g.grid.x_size == b.size_x,
        g.grid.y_size == b.size_y,
        0 <= j < builder_rect_count(b),
        builder_rect(b, j) == rect,
        g.items@.len() == j,
        forall|q: int|
            0 <= q < g.items@.len() ==> (#[trigger] g.items@[q]).rect() == builder_rect(b, q),
        !(g.grid.rect_in_bounds(rect) && g.grid.region_empty(rect)),
    ensures
        !builder_ok(b),
{
    if !g.grid.rect_in_bounds(rect) {
        // The rectangle ends outside the grid the builder declared.
        assert(!(builder_rect(b, j).x_end < b.size_x && builder_rect(b, j).y_end < b.size_y));
    } else {
        // Some cell inside the rectangle is occupied, and every occupied cell
        // belongs to an earlier occupant's rectangle: an overlap.
        assert(exists|px: int, py: int|
            rect.contains(px, py) && !((#[trigger] g.grid.cell(px, py)) is None));
        let (px, py): (int, int) = choose|px: int, py: int|
            rect.contains(px, py) && !((#[trigger] g.grid.cell(px, py)) is None);
        assert(g.in_bounds(px, py));
        let q = g.grid.cell(px, py)->Some_0;
        assert(0 <= q < g.items.len());
        assert(g.items@[q as int].rect().contains(px, py));
        assert(builder_rect(b, q as int).contains(px, py));
        assert(builder_rect(b, j).contains(px, py));
        assert(!builder_rect(b, q as int).disjoint(builder_rect(b, j)));
    }
}

/// Whether a built node's grow configuration reflects the builder's.
pub open spec fn grow_matches(
    cfg: Option<(usize, usize, GrowDirection)>,
    gc: Option<crate::layout::GrowConfig>,
) -> bool {
    match cfg {
        Some((gx, gy, dir)) => gc matches Some(g) && g.item_x == gx && g.item_y == gy
            && g.grow_direction == dir,
        None => gc is None,
    }
}

/// Filling one more rectangle and appending its occupant keeps a node well
/// formed and keeps every earlier occupant's cells: the fill only wrote cells
/// that were empty, and rectangles whose cells were already painted are
/// untouched by it.
proof fn lemma_attach_keeps_node(pre: LayoutGrid, post: LayoutGrid, rect: Rect)
    requires
        pre.wf(),
        rect.wf(),
        crate::grid2d::fill_result(pre.grid, post.grid, rect, pre.items@.len() as usize),
        post.items@.len() == pre.items@.len() + 1,
        forall|q: int| 0 <= q < pre.items@.len() ==> #[trigger] post.items@[q] == pre.items@[q],
        post.items@[pre.items@.len() as int].rect() == rect,
        post.layout_state == pre.layout_state,
        post.grow_config == pre.grow_config,
        forall|q: int, x: int, y: int|
            #![trigger pre.items@[q], pre.cell(x, y)]
            0 <= q < pre.items@.len() && pre.items@[q].rect().contains(x, y) ==> pre.cell(x, y)
                == Some(q as usize),
    ensures
        post.wf(),
        forall|q: int, x: int, y: int|
            #![trigger post.items@[q], post.cell(x, y)]
            0 <= q < post.items@.len() && post.items@[q].rect().contains(x, y) ==> post.cell(x, y)
                == Some(q as usize),
{
    let n = pre.items@.len() as int;
    assert forall|q: int, x: int, y: int|
        #![trigger post.items@[q], post.cell(x, y)]
        0 <= q < post.items@.len() && post.items@[q].rect().contains(x, y) implies post.cell(x, y)
            == Some(q as usize) by {
        if q < n {
            assert(pre.cell(x, y) == Some(q as usize));
            assert(pre.in_bounds(x, y));
            assert(!rect.contains(x, y));
            assert(post.grid.cell(x, y) == pre.grid.cell(x, y));
        } else {
            assert(rect.contains(x, y));
            assert(post.grid.cell(x, y) == Some(n as usize));
        }
    }
    assert forall|x: int, y: int|
        #![trigger post.grid.cell(x, y)]
        post.in_bounds(x, y) implies match post.grid.cell(x, y) {
        Some(i) => 0 <= i < post.items.len() && post.items@[i as int].rect().contains(x, y),
        None => true,
    } by {
        if post.grid.cell(x, y) is Some {
            if rect.contains(x, y) {
                assert(post.grid.cell(x, y) == Some(n as usize));
            } else {
                assert(post.grid.cell(x, y) == pre.grid.cell(x, y));
            }
        }
    }
    assert forall|i: int|
        0 <= i < post.items.len() implies (#[trigger] post.items@[i]).rect().wf()
            && post.items@[i].rect().x_end < post.grid.x_size && post.items@[i].rect().y_end
            < post.grid.y_size by {
        if i < n {
            assert(post.items@[i] == pre.items@[i]);
        } else {
            assert(post.items@[i].rect() == rect);
        }
    }
}

} // verus!

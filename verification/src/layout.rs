use crate::errors::NavError;
use crate::geometry::{Point, Rect};
use crate::grid2d::Grid2D;
use vstd::prelude::*;

verus! {

/// Identifier of a nested layout, unique among the siblings of one parent.
pub type LayoutID = String;

/// Opaque identifier of a focusable element, supplied by the caller.
pub type FocusID = String;

/// Identifier of a hardware button, as the input layer reports it.
pub type ButtonID = u64;

/// Coordinates are carried in `i32` points during scanning, so grid sizes
/// stay within this bound.
pub const COORD_LIMIT: usize = 0x7fff_ffff;

/// A shortcut registered for a hardware button: jump to a grid edge, then
/// scan back inward as a normal directional request.
#[derive(Debug, Clone, Copy, PartialEq, Eq, Structural)]
pub enum SpecialHandlerAction {
    /// Jump to the top-right corner, then scan Left.
    NavigateOutRight,
    /// Jump to the top-left corner, then scan Right.
    NavigateOutLeft,
}

/// What a filled grid cell holds.
#[derive(Debug, Clone)]
pub enum GridItem {
    /// A focusable leaf: its identifier and the rectangle it occupies.
    Element(FocusID, Rect),
    /// A nested layout: the arena index of its node and the rectangle it
    /// occupies.
    Sublayout(usize, Rect),
}

impl GridItem {
    /// The rectangle this occupant covers.
    pub open spec fn rect(self) -> Rect {
        match self {
            GridItem::Element(_, r) => r,
            GridItem::Sublayout(_, r) => r,
        }
    }
}

/// Which way a growable grid accepts new items.
#[derive(Debug, Clone, Copy, PartialEq, Eq, Structural)]
pub enum GrowDirection {
    /// Fill items left to right; wrap and expand downward when a row is full.
    GrowX,
    /// Fill items top to bottom; wrap and expand rightward when a column is
    /// full.
    GrowY,
}

/// Item size, growth axis and insertion cursor of a growable node.
#[derive(Debug, Clone, Copy, PartialEq, Eq, Structural)]
pub struct GrowConfig {
    pub item_x: usize,
    pub item_y: usize,
    pub grow_direction: GrowDirection,
    pub current_grow_point: Point,
}

/// One node of the layout tree: an occupancy grid of items plus this node's
/// navigation state. Cells hold indices into `items`, so every cell of one
/// filled rectangle shares the identical occupant.
#[derive(Debug)]
pub struct LayoutGrid {
    pub grid: Grid2D<usize>,
    pub items: Vec<GridItem>,
    pub layout_state: Option<Point>,
    pub special_handler: Vec<(ButtonID, SpecialHandlerAction)>,
    pub parent: Option<usize>,
    pub layout_id: LayoutID,
    pub sublayouts: Vec<(LayoutID, usize)>,
    pub grow_config: Option<GrowConfig>,
}

impl LayoutGrid {
    /// Grid width as a mathematical integer.
    pub open spec fn xs(self) -> int {
        self.grid.x_size as int
    }

    /// Grid height as a mathematical integer.
    pub open spec fn ys(self) -> int {
        self.grid.y_size as int
    }

    /// Whether `(x, y)` addresses a cell of this node's grid.
    pub open spec fn in_bounds(self, x: int, y: int) -> bool {
        self.grid.in_bounds(x, y)
    }

    /// The occupant index stored at `(x, y)`.
    pub open spec fn cell(self, x: int, y: int) -> Option<usize> {
        self.grid.cell(x, y)
    }

    /// The occupant at `(x, y)`, resolved through the item table.
    pub open spec fn item_at_spec(self, x: int, y: int) -> Option<GridItem> {
        match self.grid.cell(x, y) {
            Some(i) => if 0 <= i < self.items.len() {
                Some(self.items@[i as int])
            } else {
                None
            },
            None => None,
        }
    }

    /// Whether the cell at `(x, y)` holds a focusable element.
    pub open spec fn is_element_at(self, x: int, y: int) -> bool {
        self.item_at_spec(x, y) matches Some(GridItem::Element(_, _))
    }

    /// Whether the cell at `(x, y)` holds a nested layout.
    pub open spec fn is_sublayout_at(self, x: int, y: int) -> bool {
        self.item_at_spec(x, y) matches Some(GridItem::Sublayout(_, _))
    }

    /// The identifier of the element at `(x, y)`.
    pub open spec fn element_id_at(self, x: int, y: int) -> Seq<char> {
        match self.item_at_spec(x, y) {
            Some(GridItem::Element(id, _)) => id@,
            _ => Seq::empty(),
        }
    }

    /// The rectangle of the occupant at `(x, y)`.
    pub open spec fn rect_at(self, x: int, y: int) -> Rect {
        self.item_at_spec(x, y)->Some_0.rect()
    }

    /// Whether the stored focus point addresses an element cell.
    pub open spec fn focused_on_element(self) -> bool {
        self.layout_state matches Some(p) && self.is_element_at(p.x as int, p.y as int)
    }

    /// The identifier of the element under the focus point.
    pub open spec fn focus_id(self) -> Seq<char>
        recommends
            self.focused_on_element(),
    {
        self.element_id_at(
            self.layout_state->Some_0.x as int,
            self.layout_state->Some_0.y as int,
        )
    }

    /// Internal consistency of one node.
    ///
    /// The grid is well formed and small enough for `i32` coordinates; every
    /// filled cell points at a real item whose rectangle covers that cell;
    /// every item's rectangle ends inside the grid; the focus point, when
    /// set, lies inside the grid; and the grow cursor, when configured, lies
    /// inside or just past the grid.
    pub open spec fn wf(self) -> bool {
        &&& self.grid.wf()
        &&& self.grid.x_size <= COORD_LIMIT
        &&& self.grid.y_size <= COORD_LIMIT
        &&& forall|x: int, y: int|
            #![trigger self.grid.cell(x, y)]
            self.in_bounds(x, y) ==> match self.grid.cell(x, y) {
                Some(i) => 0 <= i < self.items.len() && self.items@[i as int].rect().contains(
                    x,
                    y,
                ),
                None => true,
            }
        &&& forall|i: int|
            0 <= i < self.items.len() ==> (#[trigger] self.items@[i]).rect().wf()
                && self.items@[i].rect().x_end < self.grid.x_size
                && self.items@[i].rect().y_end < self.grid.y_size
        &&& match self.layout_state {
            Some(p) => self.in_bounds(p.x as int, p.y as int),
            None => true,
        }
        &&& match self.grow_config {
            Some(gc) => 0 <= gc.current_grow_point.x <= self.grid.x_size
                && 0 <= gc.current_grow_point.y <= self.grid.y_size,
            None => true,
        }
    }

    /// A node with an empty grid and no navigation state.
    pub fn new(size_x: usize, size_y: usize, layout_id: LayoutID) -> (r: Result<Self, NavError>)
        ensures
            r is Ok <==> 1 <= size_x <= COORD_LIMIT && 1 <= size_y <= COORD_LIMIT,
            (size_x == 0 || size_y == 0) ==> r == Err::<Self, NavError>(NavError::InvalidGridSize),
            r is Err && size_x >= 1 && size_y >= 1 ==> r == Err::<Self, NavError>(
                NavError::GridTooLarge,
            ),
            r matches Ok(g) ==> {
                &&& g.wf()
                &&& g.grid.x_size == size_x
                &&& g.grid.y_size == size_y
                &&& forall|x: int, y: int| g.in_bounds(x, y) ==> #[trigger] g.cell(x, y) is None
                &&& g.items@.len() == 0
                &&& g.layout_state is None
                &&& g.special_handler@.len() == 0
                &&& g.parent is None
                &&& g.layout_id == layout_id
                &&& g.sublayouts@.len() == 0
                &&& g.grow_config is None
            },
    {
        if size_x > COORD_LIMIT || size_y > COORD_LIMIT {
            if size_x == 0 || size_y == 0 {
                return Err(NavError::InvalidGridSize);
            }
            return Err(NavError::GridTooLarge);
        }
        let grid = Grid2D::new(size_x, size_y)?;
        Ok(
            LayoutGrid {
                grid,
                items: Vec::new(),
                layout_state: None,
                special_handler: Vec::new(),
                parent: None,
                layout_id,
                sublayouts: Vec::new(),
                grow_config: None,
            },
        )
    }

    /// A node that accepts append-only insertions of `grow_x` by `grow_y`
    /// items along `grow_dir`, with the cursor at the origin.
    pub fn new_growable(
        size_x: usize,
        size_y: usize,
        layout_id: LayoutID,
        grow_x: usize,
        grow_y: usize,
        grow_dir: GrowDirection,
    ) -> (r: Result<Self, NavError>)
        ensures
            r is Ok <==> 1 <= size_x <= COORD_LIMIT && 1 <= size_y <= COORD_LIMIT,
            r matches Ok(g) ==> {
                &&& g.wf()
                &&& g.grid.x_size == size_x
                &&& g.grid.y_size == size_y
                &&& forall|x: int, y: int| g.in_bounds(x, y) ==> #[trigger] g.cell(x, y) is None
                &&& g.items@.len() == 0
                &&& g.layout_state is None
                &&& g.special_handler@.len() == 0
                &&& g.parent is None
                &&& g.layout_id == layout_id
                &&& g.sublayouts@.len() == 0
                &&& g.grow_config == Some(
                    GrowConfig {
                        item_x: grow_x,
                        item_y: grow_y,
                        grow_direction: grow_dir,
                        current_grow_point: Point { x: 0, y: 0 },
                    },
                )
            },
    {
        let mut g = LayoutGrid::new(size_x, size_y, layout_id)?;
        g.grow_config = Some(
            GrowConfig {
                item_x: grow_x,
                item_y: grow_y,
                grow_direction: grow_dir,
                current_grow_point: Point { x: 0, y: 0 },
            },
        );
        Ok(g)
    }

    /// Whether this node accepts growable insertions.
    pub fn is_growable(&self) -> (b: bool)
        ensures
            b == (self.grow_config is Some),
    {
        self.grow_config.is_some()
    }

    /// Points the focus at `(x, y)`, rejecting an out-of-bounds coordinate.
    /// The cell need not hold an element; scans check that later.
    pub fn set_point(&mut self, x: usize, y: usize) -> (r: Result<(), NavError>)
        requires
            old(self).wf(),
        ensures
            final(self).wf(),
            r is Ok <==> old(self).in_bounds(x as int, y as int),
            r is Err ==> *final(self) == *old(self) && r == Err::<(), NavError>(
                NavError::OutOfBounds,
            ),
            r is Ok ==> *final(self) == (LayoutGrid {
                layout_state: Some(Point { x: x as i32, y: y as i32 }),
                ..*old(self)
            }),
    {
        if x >= self.grid.x_size || y >= self.grid.y_size {
            return Err(NavError::OutOfBounds);
        }
        self.layout_state = Some(Point { x: x as i32, y: y as i32 });
        Ok(())
    }

    /// The element under the focus point, as its identifier and rectangle.
    /// Fails when no focus point is set, or when it addresses an empty cell
    /// or a nested layout.
    pub fn current_item(&self) -> (r: Result<(FocusID, Rect), NavError>)
        requires
            self.wf(),
        ensures
            r is Ok <==> self.focused_on_element(),
            r matches Ok((id, rect)) ==> id@ == self.focus_id() && (self.layout_state matches Some(
                p,
            ) && rect == self.rect_at(p.x as int, p.y as int) && rect.contains(
                p.x as int,
                p.y as int,
            ) && rect.x_end < self.grid.x_size && rect.y_end < self.grid.y_size),
            self.layout_state is None ==> r == Err::<(FocusID, Rect), NavError>(NavError::NoFocus),
            (self.layout_state matches Some(p) && self.cell(p.x as int, p.y as int) is None) ==> r
                == Err::<(FocusID, Rect), NavError>(NavError::EmptyFocusCell),
            (self.layout_state matches Some(p) && self.is_sublayout_at(p.x as int, p.y as int))
                ==> r == Err::<(FocusID, Rect), NavError>(NavError::FocusOnSublayout),
    {
        let p = match self.layout_state {
            Some(p) => p,
            None => {
                return Err(NavError::NoFocus);
            },
        };
        let idx = match self.grid.at(p.x as usize, p.y as usize)? {
            Some(idx) => idx,
            None => {
                return Err(NavError::EmptyFocusCell);
            },
        };
        match &self.items[idx] {
            GridItem::Element(id, rect) => Ok((id.clone(), *rect)),
            GridItem::Sublayout(_, _) => Err(NavError::FocusOnSublayout),
        }
    }

    /// The special action registered for button `b`, if any: the first
    /// matching entry of the override table.
    pub fn find_override(&self, b: ButtonID) -> (r: Option<SpecialHandlerAction>)
        ensures
            r == override_lookup(self.special_handler@, b),
    {
        let mut k: usize = 0;
        proof {
            assert(self.special_handler@.skip(0) =~= self.special_handler@);
        }
        while k < self.special_handler.len()
            invariant
                k <= self.special_handler@.len(),
                override_lookup(self.special_handler@, b) == override_lookup(
                    self.special_handler@.skip(k as int),
                    b,
                ),
            decreases self.special_handler@.len() - k,
        {
            let (bid, action) = self.special_handler[k];
            proof {
                assert(self.special_handler@.skip(k as int)[0] == self.special_handler@[k as int]);
                assert(self.special_handler@.skip(k as int).skip(1) == self.special_handler@.skip(
                    k as int + 1,
                ));
            }
            if bid == b {
                return Some(action);
            }
            k = k + 1;
        }
        proof {
            assert(self.special_handler@.skip(k as int).len() == 0);
        }
        None
    }

    /// The arena index of the child layout registered under `id`, recovered
    /// through this node's child table.
    pub fn get_sublayout_by_id(&self, id: &str) -> (r: Result<usize, NavError>)
        requires
            self.wf(),
            forall|k: int|
                0 <= k < self.sublayouts@.len() ==> (#[trigger] self.sublayouts@[k]).1
                    < self.items.len() && self.items@[self.sublayouts@[k].1 as int] matches GridItem::Sublayout(_, _),
        ensures
            r is Ok <==> sublayout_lookup(self.sublayouts@, id@) is Some,
            r matches Ok(c) ==> sublayout_lookup(self.sublayouts@, id@) matches Some(k)
                && self.items@[k as int] matches GridItem::Sublayout(n, _) && n == c,
            r is Err ==> r == Err::<usize, NavError>(NavError::UnknownChild),
    {
        match self.find_sublayout_entry(id) {
            Some(k) => {
                proof {
                    lemma_sublayout_lookup_member(self.sublayouts@, id@);
                }
                match &self.items[k] {
                    GridItem::Sublayout(n, _) => Ok(*n),
                    GridItem::Element(_, _) => Err(NavError::UnknownChild),
                }
            },
            None => Err(NavError::UnknownChild),
        }
    }

    /// The item-table index of the child registered under `id`: the first
    /// matching entry of the child table.
    pub fn find_sublayout_entry(&self, id: &str) -> (r: Option<usize>)
        ensures
            r == sublayout_lookup(self.sublayouts@, id@),
    {
        let key: LayoutID = id.to_owned();
        let mut k: usize = 0;
        proof {
            assert(self.sublayouts@.skip(0) =~= self.sublayouts@);
        }
        while k < self.sublayouts.len()
            invariant
                k <= self.sublayouts@.len(),
                key@ == id@,
                sublayout_lookup(self.sublayouts@, id@) == sublayout_lookup(
                    self.sublayouts@.skip(k as int),
                    id@,
                ),
            decreases self.sublayouts@.len() - k,
        {
            proof {
                assert(self.sublayouts@.skip(k as int)[0] == self.sublayouts@[k as int]);
                assert(self.sublayouts@.skip(k as int).skip(1) == self.sublayouts@.skip(
                    k as int + 1,
                ));
            }
            if self.sublayouts[k].0 == key {
                let entry = self.sublayouts[k].1;
                return Some(entry);
            }
            k = k + 1;
        }
        proof {
            assert(self.sublayouts@.skip(k as int).len() == 0);
        }
        None
    }

    /// Appends one element to a growable node: fills the next item rectangle
    /// along the growth axis, wrapping to the next band when the current one
    /// is full and expanding the grid by one item size across the growth axis
    /// when even the wrapped band reaches outside; then advances the cursor
    /// past the new item. Fails on a node with no grow configuration.
    pub fn insert_to_growable_grid(&mut self, focus_id: &str) -> (r: Result<(), NavError>)
        requires
            old(self).wf(),
        ensures
            final(self).wf(),
            r is Ok <==> grow_ok(*old(self)),
            old(self).grow_config is None ==> r == Err::<(), NavError>(NavError::NotGrowable),
            (old(self).grow_config matches Some(gc) && (gc.item_x == 0 || gc.item_y == 0)) ==> r
                == Err::<(), NavError>(NavError::InvalidRect),
            (old(self).grow_config matches Some(gc) && gc.item_x >= 1 && gc.item_y >= 1 && !(
            grow_sizes(gc, old(self).xs(), old(self).ys()).0 <= COORD_LIMIT && grow_sizes(
                gc,
                old(self).xs(),
                old(self).ys(),
            ).1 <= COORD_LIMIT)) ==> r == Err::<(), NavError>(NavError::GridTooLarge),
            r is Err && !(r == Err::<(), NavError>(NavError::OverlappingFill)) ==> *final(self)
                == *old(self),
            (grow_configured(*old(self)) && !grow_target_fits(*old(self))) ==> r == Err::<
                (),
                NavError,
            >(NavError::OversizedRect),
            (grow_configured(*old(self)) && grow_target_fits(*old(self)) && !grow_region_clear(
                *old(self),
            )) ==> r == Err::<(), NavError>(NavError::OverlappingFill),
            r == Err::<(), NavError>(NavError::OverlappingFill) ==> (old(
                self,
            ).grow_config matches Some(gc) && {
                let s = grow_sizes(gc, old(self).xs(), old(self).ys());
                &&& final(self).grid.x_size == s.0
                &&& final(self).grid.y_size == s.1
                &&& forall|x: int, y: int|
                    old(self).in_bounds(x, y) ==> #[trigger] final(self).cell(x, y) == old(
                        self,
                    ).cell(x, y)
                &&& final(self).items == old(self).items
                &&& final(self).layout_state == old(self).layout_state
                &&& final(self).special_handler == old(self).special_handler
                &&& final(self).parent == old(self).parent
                &&& final(self).layout_id == old(self).layout_id
                &&& final(self).sublayouts == old(self).sublayouts
                &&& final(self).grow_config == old(self).grow_config
            }),
            r is Ok ==> (old(self).grow_config matches Some(gc) && {
                let t = grow_target(gc, old(self).xs(), old(self).ys());
                let s = grow_sizes(gc, old(self).xs(), old(self).ys());
                &&& final(self).grid.x_size == s.0
                &&& final(self).grid.y_size == s.1
                &&& final(self).items@.len() == old(self).items@.len() + 1
                &&& forall|i: int|
                    0 <= i < old(self).items@.len() ==> #[trigger] final(self).items@[i] == old(
                        self,
                    ).items@[i]
                &&& (final(self).items@[old(self).items@.len() as int] matches GridItem::Element(
                    id,
                    rect,
                ) && id@ == focus_id@ && rect.x_start == t.0 && rect.x_end == t.1 && rect.y_start
                    == t.2 && rect.y_end == t.3)
                &&& forall|x: int, y: int|
                    t.0 <= x <= t.1 && t.2 <= y <= t.3 ==> #[trigger] final(self).cell(x, y)
                        == Some(old(self).items@.len() as usize)
                &&& forall|x: int, y: int|
                    old(self).in_bounds(x, y) && !(t.0 <= x <= t.1 && t.2 <= y <= t.3)
                        ==> #[trigger] final(self).cell(x, y) == old(self).cell(x, y)
                &&& forall|x: int, y: int|
                    final(self).in_bounds(x, y) && !old(self).in_bounds(x, y) && !(t.0 <= x <= t.1
                        && t.2 <= y <= t.3) ==> #[trigger] final(self).cell(x, y) is None
                &&& (final(self).grow_config matches Some(gc2) && gc2.item_x == gc.item_x
                    && gc2.item_y == gc.item_y && gc2.grow_direction == gc.grow_direction && match gc.grow_direction {
                    GrowDirection::GrowX => gc2.current_grow_point.x == t.1 + 1
                        && gc2.current_grow_point.y == t.2,
                    GrowDirection::GrowY => gc2.current_grow_point.x == t.0
                        && gc2.current_grow_point.y == t.3 + 1,
                })
                &&& final(self).layout_state == old(self).layout_state
                &&& final(self).special_handler == old(self).special_handler
                &&& final(self).parent == old(self).parent
                &&& final(self).layout_id == old(self).layout_id
                &&& final(self).sublayouts == old(self).sublayouts
                &&& insert_effect(
                    *old(self),
                    *final(self),
                    final(self).items@[old(self).items@.len() as int].rect(),
                )
            }),
    {
        let gc = match self.grow_config {
            Some(gc) => gc,
            None => {
                return Err(NavError::NotGrowable);
            },
        };
        let ix = gc.item_x;
        let iy = gc.item_y;
        if ix == 0 || iy == 0 {
            return Err(NavError::InvalidRect);
        }
        let cx = gc.current_grow_point.x as usize;
        let cy = gc.current_grow_point.y as usize;
        let xs = self.grid.x_size;
        let ys = self.grid.y_size;

        // Decide the target rectangle and whether the grid must grow first.
        let target: Rect;
        let mut expand_to_x: usize = xs;
        let mut expand_to_y: usize = ys;
        match gc.grow_direction {
            GrowDirection::GrowX => {
                if ix <= xs - cx && iy <= ys - cy {
                    target = Rect {
                        x_start: cx,
                        x_end: cx + ix - 1,
                        y_start: cy,
                        y_end: cy + iy - 1,
                    };
                } else {
                    let wrapped_fits = ix <= xs && iy <= ys && cy + iy <= ys - iy;
                    if !wrapped_fits {
                        // Even the wrapped band needs more room.
                        if iy > COORD_LIMIT - ys {
                            return Err(NavError::GridTooLarge);
                        }
                        expand_to_y = ys + iy;
                        if ix > xs || cy + iy > ys {
                            return Err(NavError::OversizedRect);
                        }
                    }
                    let band_y = cy + iy;
                    target = Rect {
                        x_start: 0,
                        x_end: ix - 1,
                        y_start: band_y,
                        y_end: band_y + iy - 1,
                    };
                }
            },
            GrowDirection::GrowY => {
                if iy <= ys - cy && ix <= xs - cx {
                    target = Rect {
                        x_start: cx,
                        x_end: cx + ix - 1,
                        y_start: cy,
                        y_end: cy + iy - 1,
                    };
                } else {
                    let wrapped_fits = iy <= ys && ix <= xs && cx + ix <= xs - ix;
                    if !wrapped_fits {
                        if ix > COORD_LIMIT - xs {
                            return Err(NavError::GridTooLarge);
                        }
                        expand_to_x = xs + ix;
                        if iy > ys || cx + ix > xs {
                            return Err(NavError::OversizedRect);
                        }
                    }
                    let band_x = cx + ix;
                    target = Rect {
                        x_start: band_x,
                        x_end: band_x + ix - 1,
                        y_start: 0,
                        y_end: iy - 1,
                    };
                }
            },
        }
        proof {
            let t = grow_target(gc, old(self).xs(), old(self).ys());
            let s = grow_sizes(gc, old(self).xs(), old(self).ys());
            assert(target.x_start == t.0 && target.x_end == t.1 && target.y_start == t.2
                && target.y_end == t.3);
            assert(expand_to_x == s.0 && expand_to_y == s.1);
            assert(target.x_end < expand_to_x && target.y_end < expand_to_y);
        }

        if expand_to_x > xs || expand_to_y > ys {
            let expanded = self.grid.expand(expand_to_x, expand_to_y);
            assert(expanded is Ok);
        }
        let ghost mid = *self;

        // Fill the target with a fresh element occupant.
        let idx = self.items.len();
        match self.grid.fill(target, idx) {
            Ok(()) => {},
            Err(e) => {
                proof {
                    let go = *old(self);
                    assert(e == NavError::OverlappingFill);
                    // The target fits, so the failure means a cell inside it
                    // is occupied; cells added by the expansion are empty, so
                    // that cell already existed and was already occupied.
                    assert(!mid.grid.region_empty(target));
                    assert(exists|px: int, py: int|
                        target.contains(px, py) && !((#[trigger] mid.grid.cell(px, py)) is None));
                    let (px, py): (int, int) = choose|px: int, py: int|
                        target.contains(px, py) && !((#[trigger] mid.grid.cell(px, py)) is None);
                    assert(go.in_bounds(px, py));
                    assert(go.cell(px, py) is Some);
                    assert(!grow_ok(go));
                }
                return Err(e);
            },
        }
        let ghost postfill = *self;
        self.items.push(GridItem::Element(focus_id.to_owned(), target));

        // Advance the cursor past the new item along the growth axis.
        let next_point = match gc.grow_direction {
            GrowDirection::GrowX => Point {
                x: (target.x_end + 1) as i32,
                y: target.y_start as i32,
            },
            GrowDirection::GrowY => Point {
                x: target.x_start as i32,
                y: (target.y_end + 1) as i32,
            },
        };
        self.grow_config = Some(
            GrowConfig {
                item_x: ix,
                item_y: iy,
                grow_direction: gc.grow_direction,
                current_grow_point: next_point,
            },
        );
        proof {
            let go = *old(self);
            let t = grow_target(gc, go.xs(), go.ys());
            let idxn = go.items@.len() as int;

            // The old region inside the target was empty: the fill found the
            // (possibly expanded) grid empty there, and expansion keeps cells.
            assert forall|x: int, y: int|
                t.0 <= x <= t.1 && t.2 <= y <= t.3 && go.in_bounds(x, y) implies (
            #[trigger] go.cell(x, y)) is None by {
                assert(target.contains(x, y));
                assert(mid.grid.cell(x, y) is None);
                assert(go.grid.cell(x, y) == mid.grid.cell(x, y));
            }
            assert(grow_ok(go));

            // Cell contents after the insertion.
            assert forall|x: int, y: int| t.0 <= x <= t.1 && t.2 <= y <= t.3 implies #[trigger] self.cell(
                x,
                y,
            ) == Some(idxn as usize) by {
                assert(target.contains(x, y));
                assert(postfill.grid.cell(x, y) == Some(idx));
            }
            assert forall|x: int, y: int|
                go.in_bounds(x, y) && !(t.0 <= x <= t.1 && t.2 <= y <= t.3) implies #[trigger] self.cell(
                x,
                y,
            ) == go.cell(x, y) by {
                assert(!target.contains(x, y));
                assert(mid.grid.in_bounds(x, y));
                assert(postfill.grid.cell(x, y) == mid.grid.cell(x, y));
                assert(mid.grid.cell(x, y) == go.grid.cell(x, y));
            }
            assert forall|x: int, y: int|
                self.in_bounds(x, y) && !go.in_bounds(x, y) && !(t.0 <= x <= t.1 && t.2 <= y
                    <= t.3) implies (#[trigger] self.cell(x, y)) is None by {
                assert(!target.contains(x, y));
                assert(mid.grid.in_bounds(x, y));
                assert(postfill.grid.cell(x, y) == mid.grid.cell(x, y));
                assert(mid.grid.cell(x, y) is None);
            }

            // The node invariant still holds.
            assert forall|x: int, y: int|
                #![trigger self.grid.cell(x, y)]
                self.in_bounds(x, y) implies match self.grid.cell(x, y) {
                Some(i) => 0 <= i < self.items.len() && self.items@[i as int].rect().contains(
                    x,
                    y,
                ),
                None => true,
            } by {
                if self.grid.cell(x, y) is Some {
                    if target.contains(x, y) {
                        assert(postfill.grid.cell(x, y) == Some(idx));
                        assert(self.items@[idxn].rect() == target);
                    } else {
                        assert(postfill.grid.cell(x, y) == mid.grid.cell(x, y));
                        if go.in_bounds(x, y) {
                            assert(mid.grid.cell(x, y) == go.grid.cell(x, y));
                            assert(match go.grid.cell(x, y) {
                                Some(i) => 0 <= i < go.items.len()
                                    && go.items@[i as int].rect().contains(x, y),
                                None => true,
                            });
                        } else {
                            assert(mid.grid.cell(x, y) is None);
                        }
                    }
                }
            }
            assert forall|i: int| 0 <= i < self.items.len() implies (
            #[trigger] self.items@[i]).rect().x_end < self.grid.x_size
                && self.items@[i].rect().y_end < self.grid.y_size by {
                if i < idxn {
                    assert(self.items@[i] == go.items@[i]);
                } else {
                    assert(self.items@[i].rect() == target);
                }
            }
            assert(self.wf());
            assert(insert_effect(go, *self, self.items@[idxn].rect()));
        }
        Ok(())
    }

    /// A copy of the occupant at item-table index `idx`.
    pub(crate) fn item_snapshot(&self, idx: usize) -> (it: GridItem)
        requires
            idx < self.items.len(),
        ensures
            it == self.items@[idx as int],
    {
        match &self.items[idx] {
            GridItem::Element(id, r) => GridItem::Element(id.clone(), *r),
            GridItem::Sublayout(c, r) => GridItem::Sublayout(*c, *r),
        }
    }

    /// The occupant at `(x, y)`, rejecting an out-of-bounds coordinate.
    pub fn item_at(&self, x: usize, y: usize) -> (r: Result<Option<&GridItem>, NavError>)
        requires
            self.wf(),
        ensures
            r is Ok <==> self.in_bounds(x as int, y as int),
            r is Err ==> r == Err::<Option<&GridItem>, NavError>(NavError::OutOfBounds),
            r matches Ok(Some(it)) ==> self.item_at_spec(x as int, y as int) == Some(*it),
            r matches Ok(o) ==> (o is Some <==> self.cell(x as int, y as int) is Some),
    {
        match self.grid.at(x, y)? {
            Some(i) => Ok(Some(&self.items[i])),
            None => Ok(None),
        }
    }
}

/// The rectangle the next growable insertion fills, as
/// `(x_start, x_end, y_start, y_end)` over the integers, for a node with
/// grow configuration `gc` and grid sizes `xs` by `ys`: one item at the
/// cursor; or, when that reaches outside the grid, one item at the start of
/// the next band along the perpendicular axis (where it stays even when the
/// grid must first expand to make room).
pub open spec fn grow_target(gc: GrowConfig, xs: int, ys: int) -> (int, int, int, int) {
    let cx = gc.current_grow_point.x as int;
    let cy = gc.current_grow_point.y as int;
    let ix = gc.item_x as int;
    let iy = gc.item_y as int;
    match gc.grow_direction {
        GrowDirection::GrowX => {
            if cx + ix <= xs && cy + iy <= ys {
                (cx, cx + ix - 1, cy, cy + iy - 1)
            } else {
                (0, ix - 1, cy + iy, cy + 2 * iy - 1)
            }
        },
        GrowDirection::GrowY => {
            if cy + iy <= ys && cx + ix <= xs {
                (cx, cx + ix - 1, cy, cy + iy - 1)
            } else {
                (cx + ix, cx + 2 * ix - 1, 0, iy - 1)
            }
        },
    }
}

/// The grid sizes after the next growable insertion: unchanged when the item
/// fits at the cursor or in the wrapped band, and otherwise grown by exactly
/// one item size along the perpendicular axis.
pub open spec fn grow_sizes(gc: GrowConfig, xs: int, ys: int) -> (int, int) {
    let cx = gc.current_grow_point.x as int;
    let cy = gc.current_grow_point.y as int;
    let ix = gc.item_x as int;
    let iy = gc.item_y as int;
    match gc.grow_direction {
        GrowDirection::GrowX => {
            if (cx + ix <= xs && cy + iy <= ys) || (ix <= xs && cy + 2 * iy <= ys) {
                (xs, ys)
            } else {
                (xs, ys + iy)
            }
        },
        GrowDirection::GrowY => {
            if (cy + iy <= ys && cx + ix <= xs) || (iy <= ys && cx + 2 * ix <= xs) {
                (xs, ys)
            } else {
                (xs + ix, ys)
            }
        },
    }
}

/// Whether the node is configured for insertion at all: a grow configuration
/// with a real item size, whose grid would stay within the coordinate range
/// after the expansion the insertion may take.
pub open spec fn grow_configured(g: LayoutGrid) -> bool {
    match g.grow_config {
        Some(gc) => {
            let s = grow_sizes(gc, g.xs(), g.ys());
            &&& gc.item_x >= 1
            &&& gc.item_y >= 1
            &&& s.0 <= COORD_LIMIT
            &&& s.1 <= COORD_LIMIT
        },
        None => false,
    }
}

/// Whether the next insertion's target rectangle lies inside the grid the
/// insertion leaves behind.
pub open spec fn grow_target_fits(g: LayoutGrid) -> bool {
    match g.grow_config {
        Some(gc) => {
            let t = grow_target(gc, g.xs(), g.ys());
            let s = grow_sizes(gc, g.xs(), g.ys());
            &&& 0 <= t.0 <= t.1 < s.0
            &&& 0 <= t.2 <= t.3 < s.1
        },
        None => false,
    }
}

/// Whether no already occupied cell stands inside the next insertion's
/// target rectangle.
pub open spec fn grow_region_clear(g: LayoutGrid) -> bool {
    match g.grow_config {
        Some(gc) => {
            let t = grow_target(gc, g.xs(), g.ys());
            forall|x: int, y: int|
                t.0 <= x <= t.1 && t.2 <= y <= t.3 && g.in_bounds(x, y) ==> (#[trigger] g.cell(
                    x,
                    y,
                )) is None
        },
        None => false,
    }
}

/// Whether the next growable insertion on `g` succeeds: the node is
/// configured for insertion, the target rectangle fits, and nothing occupies
/// it yet.
pub open spec fn grow_ok(g: LayoutGrid) -> bool {
    grow_configured(g) && grow_target_fits(g) && grow_region_clear(g)
}

/// The grid-level effect of one successful growable insertion: the grid kept
/// or grew its sizes, the inserted rectangle's cells were empty before (where
/// they existed at all) and all hold an occupant afterwards, and every other
/// cell is unchanged.
pub open spec fn insert_effect(pre: LayoutGrid, post: LayoutGrid, rect: Rect) -> bool {
    &&& pre.wf()
    &&& post.grid.x_size >= pre.grid.x_size
    &&& post.grid.y_size >= pre.grid.y_size
    &&& rect.wf()
    &&& rect.x_end < post.grid.x_size
    &&& rect.y_end < post.grid.y_size
    &&& forall|x: int, y: int|
        rect.contains(x, y) && pre.in_bounds(x, y) ==> (#[trigger] pre.cell(x, y)) is None
    &&& forall|x: int, y: int| rect.contains(x, y) ==> (#[trigger] post.cell(x, y)) is Some
    &&& forall|x: int, y: int|
        pre.in_bounds(x, y) && !rect.contains(x, y) ==> #[trigger] post.cell(x, y) == pre.cell(
            x,
            y,
        )
}

/// Sequential growable insertions never overlap: the rectangles of two
/// successive successful insertions are disjoint, because the second one only
/// fills cells that were still empty after the first.
pub proof fn lemma_sequential_inserts_disjoint(
    n0: LayoutGrid,
    n1: LayoutGrid,
    n2: LayoutGrid,
    r1: Rect,
    r2: Rect,
)
    requires
        insert_effect(n0, n1, r1),
        insert_effect(n1, n2, r2),
    ensures
        r1.disjoint(r2),
{
    assert forall|x: int, y: int| !(r1.contains(x, y) && r2.contains(x, y)) by {
        if r1.contains(x, y) && r2.contains(x, y) {
            assert(n1.cell(x, y) is Some);
            assert(n1.in_bounds(x, y));
            assert(n1.cell(x, y) is None);
        }
    }
}

/// Any run of successful insertions yields pairwise disjoint rectangles.
/// `states` holds the node states the run passes through and `rects[i]` the
/// rectangle the `i`-th insertion filled: each insertion fills only cells
/// that are still empty, and no later insertion touches them again, so no two
/// rectangles of the run share a cell.
pub proof fn lemma_insert_run_disjoint(states: Seq<LayoutGrid>, rects: Seq<Rect>)
    requires
        states.len() == rects.len() + 1,
        forall|i: int| 0 <= i < rects.len() ==> insert_effect(states[i], states[i + 1], rects[i]),
    ensures
        forall|i: int, j: int|
            0 <= i < j < rects.len() ==> (#[trigger] rects[i]).disjoint(#[trigger] rects[j]),
{
    assert forall|i: int, j: int|
        0 <= i < j < rects.len() implies (#[trigger] rects[i]).disjoint(
        #[trigger] rects[j],
    ) by {
        lemma_insert_run_cells_stay(states, rects, i, j);
        assert(insert_effect(states[j], states[j + 1], rects[j]));
        assert forall|x: int, y: int| !(rects[i].contains(x, y) && rects[j].contains(x, y)) by {
            if rects[i].contains(x, y) && rects[j].contains(x, y) {
                assert(states[j].cell(x, y) is Some && states[j].in_bounds(x, y));
                assert(states[j].cell(x, y) is None);
            }
        }
    }
}

/// After the `i`-th insertion of a run, the cells of its rectangle stay
/// occupied, inside the grid, through every later state up to `m`.
proof fn lemma_insert_run_cells_stay(states: Seq<LayoutGrid>, rects: Seq<Rect>, i: int, m: int)
    requires
        states.len() == rects.len() + 1,
        forall|ii: int|
            0 <= ii < rects.len() ==> insert_effect(states[ii], states[ii + 1], rects[ii]),
        0 <= i < m <= rects.len(),
    ensures
        forall|x: int, y: int|
            rects[i].contains(x, y) ==> (#[trigger] states[m].cell(x, y)) is Some
                && states[m].in_bounds(x, y),
    decreases m,
{
    if m == i + 1 {
        assert(insert_effect(states[i], states[i + 1], rects[i]));
        assert forall|x: int, y: int|
            rects[i].contains(x, y) implies (#[trigger] states[m].cell(x, y)) is Some
                && states[m].in_bounds(x, y) by {
            assert(states[m].cell(x, y) is Some);
            assert(x <= rects[i].x_end < states[m].grid.x_size);
            assert(y <= rects[i].y_end < states[m].grid.y_size);
        }
    } else {
        lemma_insert_run_cells_stay(states, rects, i, m - 1);
        assert(insert_effect(states[m - 1], states[m], rects[m - 1]));
        assert forall|x: int, y: int|
            rects[i].contains(x, y) implies (#[trigger] states[m].cell(x, y)) is Some
                && states[m].in_bounds(x, y) by {
            assert(states[m - 1].cell(x, y) is Some && states[m - 1].in_bounds(x, y));
            // the next insertion's rectangle was empty, so this cell is not in
            // it and the insertion leaves the cell alone
            assert(!rects[m - 1].contains(x, y));
            assert(states[m].cell(x, y) == states[m - 1].cell(x, y));
            assert(states[m].in_bounds(x, y));
        }
    }
}

/// The first special action registered for button `b` in the override table.
pub open spec fn override_lookup(s: Seq<(ButtonID, SpecialHandlerAction)>, b: ButtonID) -> Option<
    SpecialHandlerAction,
>
    decreases s.len(),
{
    if s.len() == 0 {
        None
    } else if s[0].0 == b {
        Some(s[0].1)
    } else {
        override_lookup(s.skip(1), b)
    }
}

/// The item-table index registered for the child named `id`, if any.
pub open spec fn sublayout_lookup(s: Seq<(LayoutID, usize)>, id: Seq<char>) -> Option<usize>
    decreases s.len(),
{
    if s.len() == 0 {
        None
    } else if s[0].0@ == id {
        Some(s[0].1)
    } else {
        sublayout_lookup(s.skip(1), id)
    }
}

/// A found child-table index really is one of the table's entries.
pub(crate) proof fn lemma_sublayout_lookup_member(s: Seq<(LayoutID, usize)>, id: Seq<char>)
    requires
        sublayout_lookup(s, id) is Some,
    ensures
        exists|j: int| 0 <= j < s.len() && (#[trigger] s[j]).1 == sublayout_lookup(s, id)->Some_0,
    decreases s.len(),
{
    if s.len() == 0 {
    } else if s[0].0@ == id {
        assert(s[0].1 == sublayout_lookup(s, id)->Some_0);
    } else {
        lemma_sublayout_lookup_member(s.skip(1), id);
        let j = choose|j: int|
            0 <= j < s.skip(1).len() && (#[trigger] s.skip(1)[j]).1 == sublayout_lookup(
                s.skip(1),
                id,
            )->Some_0;
        assert(s[j + 1] == s.skip(1)[j]);
    }
}

} // verus!

use crate::errors::NavError;
use crate::geometry::{dir_vec, side_dirs, Direction, Point, Rect};
use crate::layout::{
    override_lookup, sublayout_lookup, ButtonID, GridItem, LayoutGrid, LayoutID,
    SpecialHandlerAction, COORD_LIMIT,
};
use vstd::prelude::*;

verus! {

/// One discrete navigation request.
#[derive(Debug, Clone, Copy, PartialEq, Eq, Structural)]
pub enum NavigationDirective {
    /// A hardware button, resolved through the focused node's override table;
    /// with no override registered it reports the current focus, like `Noop`.
    Button(ButtonID),
    /// A directional scan.
    Direction(Direction),
    /// No movement: report the current focus.
    Noop,
}

/// What one navigation request resolved to.
#[derive(Debug, Clone)]
pub enum NavigationResult {
    /// Focus moved (or stayed) inside the node that handled the request.
    WithinLayout(String),
    /// Focus crossed into another node: the new focus identifier and that
    /// node's arena index.
    AcrossLayout(String, usize),
    /// No candidate anywhere in the reachable tree: the terminal outcome.
    NoNextItem,
}

/// A delegation across a parent/child edge. Positions cross the edge as
/// fractions, carried exactly as `(numerator, denominator)` pairs.
enum NavigateAcrossBundle {
    /// Child to parent: the exit fractions (anchor over grid size, per axis),
    /// the direction still being scanned, and the exiting child's identifier.
    NavigateToParent((usize, usize), (usize, usize), Direction, LayoutID),
    /// Parent to child: the entry fractions (position inside the child's
    /// rectangle, per axis) and the direction still being scanned.
    NavigateToChild((usize, usize), (usize, usize), Direction),
}

/// The layout tree: every node lives in one arena and is addressed by index;
/// parent links and child tables hold plain indices.
#[derive(Debug)]
pub struct LayoutTree {
    pub nodes: Vec<LayoutGrid>,
    pub root: usize,
}

/// Local well-formedness of the node at `n` of `nodes`, plus the validity of
/// its cross-references: the parent index and every child index point at
/// nodes of the arena, and every child-table entry points at a sublayout item.
pub open spec fn arena_wf_node(nodes: Seq<LayoutGrid>, n: int) -> bool {
    &&& nodes[n].wf()
    &&& match nodes[n].parent {
        Some(p) => 0 <= p < nodes.len(),
        None => true,
    }
    &&& forall|i: int|
        0 <= i < nodes[n].items.len() ==> match #[trigger] nodes[n].items@[i] {
            GridItem::Sublayout(c, _) => 0 <= c < nodes.len(),
            GridItem::Element(_, _) => true,
        }
    &&& forall|k: int|
        0 <= k < nodes[n].sublayouts@.len() ==> (#[trigger] nodes[n].sublayouts@[k]).1
            < nodes[n].items.len() && nodes[n].items@[nodes[n].sublayouts@[k].1 as int] matches GridItem::Sublayout(_, _)
}

impl LayoutTree {
    /// The whole arena is well formed and the root index is real.
    pub open spec fn wf(self) -> bool {
        &&& 0 <= self.root < self.nodes.len()
        &&& forall|n: int| 0 <= n < self.nodes.len() ==> arena_wf_node(self.nodes@, n)
    }

    /// The node at arena index `n`.
    pub open spec fn node(self, n: int) -> LayoutGrid {
        self.nodes@[n]
    }
}

/// Navigation moves focus points and nothing else: the two nodes agree on
/// every field but `layout_state`.
pub open spec fn same_but_focus(a: LayoutGrid, b: LayoutGrid) -> bool {
    &&& b.grid == a.grid
    &&& b.items == a.items
    &&& b.special_handler == a.special_handler
    &&& b.parent == a.parent
    &&& b.layout_id == a.layout_id
    &&& b.sublayouts == a.sublayouts
    &&& b.grow_config == a.grow_config
}

/// The frame of one navigation call: same arena shape, and every node
/// untouched except possibly its focus point.
pub open spec fn nav_frame(pre: LayoutTree, post: LayoutTree) -> bool {
    &&& post.nodes.len() == pre.nodes.len()
    &&& post.root == pre.root
    &&& forall|n: int|
        0 <= n < pre.nodes.len() ==> same_but_focus(#[trigger] pre.nodes@[n], post.nodes@[n])
}

/// `post` is `pre` with the focus point of node `n` moved to `(x, y)`.
pub open spec fn focus_set(pre: LayoutTree, post: LayoutTree, n: int, x: int, y: int) -> bool {
    &&& post.nodes.len() == pre.nodes.len()
    &&& post.root == pre.root
    &&& forall|m: int| 0 <= m < pre.nodes.len() && m != n ==> post.nodes@[m] == #[trigger] pre.nodes@[m]
    &&& post.nodes@[n] == LayoutGrid {
        layout_state: Some(Point { x: x as i32, y: y as i32 }),
        ..pre.nodes@[n]
    }
}

/// A successful outcome names an element that really holds the focus of the
/// named node.
pub open spec fn result_valid(t: LayoutTree, node: int, r: NavigationResult) -> bool {
    match r {
        NavigationResult::WithinLayout(id) => 0 <= node < t.nodes.len() && t.node(
            node,
        ).focused_on_element() && t.node(node).focus_id() == id@,
        NavigationResult::AcrossLayout(id, m) => m < t.nodes.len() && t.node(
            m as int,
        ).focused_on_element() && t.node(m as int).focus_id() == id@,
        NavigationResult::NoNextItem => true,
    }
}

/// Steps a walk from `(x, y)` can still take along `d` before leaving the
/// grid.
pub open spec fn ray_fuel(g: LayoutGrid, x: int, y: int, d: Direction) -> int {
    match d {
        Direction::Up => y + 1,
        Direction::Down => g.ys() - y,
        Direction::Left => x + 1,
        Direction::Right => g.xs() - x,
    }
}

/// The first occupied cell on the walk from `(x, y)` (inclusive) along `d`,
/// or `None` when the walk leaves the grid without a hit.
pub open spec fn ray_first_hit(g: LayoutGrid, x: int, y: int, d: Direction) -> Option<(int, int)>
    decreases ray_fuel(g, x, y, d),
{
    if !g.in_bounds(x, y) {
        None
    } else if g.cell(x, y) is Some {
        Some((x, y))
    } else {
        ray_first_hit(g, x + dir_vec(d).0, y + dir_vec(d).1, d)
    }
}

/// The first element a sideways probe from `(x, y)` (inclusive) along `pd`
/// reaches: an empty cell lets the probe continue, an element stops it with a
/// hit, and a nested layout blocks it — side scans may not land inside a
/// nested grid.
pub open spec fn side_probe_hit(g: LayoutGrid, x: int, y: int, pd: Direction) -> Option<(int, int)>
    decreases ray_fuel(g, x, y, pd),
{
    if !g.in_bounds(x, y) {
        None
    } else if g.is_sublayout_at(x, y) {
        None
    } else if g.cell(x, y) is Some {
        Some((x, y))
    } else {
        side_probe_hit(g, x + dir_vec(pd).0, y + dir_vec(pd).1, pd)
    }
}

/// The first element the side scan finds: walk the primary line from
/// `(x, y)` (inclusive) along `d`, and at each position probe the two
/// perpendicular directions in order, each probe starting one step off the
/// line. The first hit at the earliest line position wins.
pub open spec fn side_scan_hit(g: LayoutGrid, x: int, y: int, d: Direction) -> Option<(int, int)>
    decreases ray_fuel(g, x, y, d),
{
    if !g.in_bounds(x, y) {
        None
    } else {
        let a = side_dirs(d).0;
        let b = side_dirs(d).1;
        let ha = side_probe_hit(g, x + dir_vec(a).0, y + dir_vec(a).1, a);
        let hb = side_probe_hit(g, x + dir_vec(b).0, y + dir_vec(b).1, b);
        if ha is Some {
            ha
        } else if hb is Some {
            hb
        } else {
            side_scan_hit(g, x + dir_vec(d).0, y + dir_vec(d).1, d)
        }
    }
}

/// The cell a directional scan starts from: the focused element's corner
/// facing the direction of travel, or the raw focus point when the focus does
/// not address an element; nothing without a focus point.
pub open spec fn scan_anchor(g: LayoutGrid, d: Direction) -> Option<(int, int)> {
    match g.layout_state {
        Some(p) => if g.is_element_at(p.x as int, p.y as int) {
            let r = g.rect_at(p.x as int, p.y as int);
            match d {
                Direction::Up | Direction::Left => Some((r.x_start as int, r.y_start as int)),
                Direction::Down | Direction::Right => Some((r.x_end as int, r.y_end as int)),
            }
        } else {
            Some((p.x as int, p.y as int))
        },
        None => None,
    }
}

/// Where a parent-to-child handoff lands inside a child of sizes `xs` by
/// `ys`: each entry fraction mapped over the child's inclusive index range.
pub open spec fn entry_point(xs: int, ys: int, fx: (int, int), fy: (int, int)) -> (int, int) {
    ((xs - 1) * fx.0 / fx.1, (ys - 1) * fy.0 / fy.1)
}

/// Where a child exit lands in the parent: the child rectangle's origin plus
/// each exit fraction mapped over the rectangle's extent.
pub open spec fn exit_point(rect: Rect, fx: (int, int), fy: (int, int)) -> (int, int) {
    (
        rect.x_start + (rect.x_end - rect.x_start) * fx.0 / fx.1,
        rect.y_start + (rect.y_end - rect.y_start) * fy.0 / fy.1,
    )
}

/// How a locally resolved hit is reported back: as `WithinLayout` when the
/// answering node handled the request itself, or as `AcrossLayout` into
/// `via` when the answer comes back over a parent/child edge.
pub open spec fn hit_reported(
    r: Result<NavigationResult, NavError>,
    id: Seq<char>,
    via: Option<usize>,
) -> bool {
    match via {
        None => r matches Ok(NavigationResult::WithinLayout(s)) && s@ == id,
        Some(p) => r matches Ok(NavigationResult::AcrossLayout(s, m)) && s@ == id && m == p,
    }
}

/// The anchor a scan uses once the focus stands at `(px, py)`: the corner of
/// the element there facing `d`, or the raw point when the cell holds no
/// element.
pub open spec fn anchor_from(g: LayoutGrid, px: int, py: int, d: Direction) -> (int, int) {
    if g.is_element_at(px, py) {
        let rct = g.rect_at(px, py);
        match d {
            Direction::Up | Direction::Left => (rct.x_start as int, rct.y_start as int),
            Direction::Down | Direction::Right => (rct.x_end as int, rct.y_end as int),
        }
    } else {
        (px, py)
    }
}

/// What the directional scans from anchor `a` force when they resolve inside
/// the grid of `node` itself: an element first on the primary ray takes the
/// focus and is reported; a ray without occupants falls to the side scan,
/// whose hit is reported the same way; and a scan that exhausts both, or
/// steps out of a parentless grid, ends with `NoNextItem`, the focus resting
/// at `rest`. A ray that reaches a nested grid, or a step out of a grid with
/// a parent, delegates onward and is not constrained here.
pub open spec fn scan_hits_outcome(
    pre: LayoutTree,
    node: int,
    a: (int, int),
    d: Direction,
    post: LayoutTree,
    r: Result<NavigationResult, NavError>,
    via: Option<usize>,
    rest: (int, int),
) -> bool {
    let g = pre.nodes@[node];
    let sx = a.0 + dir_vec(d).0;
    let sy = a.1 + dir_vec(d).1;
    if !g.in_bounds(sx, sy) {
        g.parent is None ==> r == Ok::<NavigationResult, NavError>(NavigationResult::NoNextItem)
            && focus_set(pre, post, node, rest.0, rest.1)
    } else {
        match ray_first_hit(g, sx, sy, d) {
            Some(c) => g.is_element_at(c.0, c.1) ==> hit_reported(
                r,
                g.element_id_at(c.0, c.1),
                via,
            ) && focus_set(pre, post, node, c.0, c.1),
            None => match side_scan_hit(g, sx, sy, d) {
                Some(c) => hit_reported(r, g.element_id_at(c.0, c.1), via) && focus_set(
                    pre,
                    post,
                    node,
                    c.0,
                    c.1,
                ),
                None => r == Ok::<NavigationResult, NavError>(NavigationResult::NoNextItem)
                    && focus_set(pre, post, node, rest.0, rest.1),
            },
        }
    }
}

/// The entry fraction along one axis: the landing position inside the child
/// rectangle over the rectangle's extent; a degenerate axis maps to zero.
pub open spec fn entry_fraction(lo: int, hi: int, v: int) -> (int, int) {
    if hi == lo {
        (0, 1)
    } else {
        (v - lo, hi - lo)
    }
}

/// Where a scan that reached cell `(x, y)` of a nested grid's rectangle
/// `rect` enters the child `childg`: the cell's fractions within the
/// rectangle, mapped over the child's inclusive index range.
pub open spec fn child_entry_cell(childg: LayoutGrid, rect: Rect, x: int, y: int) -> (int, int) {
    entry_point(
        childg.xs(),
        childg.ys(),
        entry_fraction(rect.x_start as int, rect.x_end as int, x),
        entry_fraction(rect.y_start as int, rect.y_end as int, y),
    )
}

/// What entering the node `child` at cell `e` forces: an element there takes
/// the child's focus and is reported; an empty cell anchors the directional
/// scans there, reported the same way. A nested grid at the entry cell
/// delegates deeper and is not constrained here.
pub open spec fn child_entry_outcome(
    pre: LayoutTree,
    child: int,
    e: (int, int),
    d: Direction,
    post: LayoutTree,
    r: Result<NavigationResult, NavError>,
    via: Option<usize>,
) -> bool {
    let g = pre.nodes@[child];
    &&& (g.is_element_at(e.0, e.1) ==> hit_reported(r, g.element_id_at(e.0, e.1), via)
        && focus_set(pre, post, child, e.0, e.1))
    &&& (g.cell(e.0, e.1) is None ==> scan_hits_outcome(pre, child, e, d, post, r, via, e))
}

/// What a parent node `p` does when a child named `cid` exits into it with
/// exit fractions `fx`, `fy`: it looks the child up by identifier, failing
/// with `UnknownChild` when the table lacks it; otherwise the fractions map
/// into the child's rectangle, where an element takes the parent's focus and
/// is reported, while an empty landing — or one on the exited child itself —
/// anchors the parent's scans there, reported the same way.
pub open spec fn reentry_outcome(
    pre: LayoutTree,
    p: int,
    cid: Seq<char>,
    fx: (int, int),
    fy: (int, int),
    d: Direction,
    post: LayoutTree,
    r: Result<NavigationResult, NavError>,
    via: Option<usize>,
) -> bool {
    let parent = pre.nodes@[p];
    let lk = sublayout_lookup(parent.sublayouts@, cid);
    &&& (lk is None ==> r == Err::<NavigationResult, NavError>(NavError::UnknownChild) && post
        == pre)
    &&& (lk matches Some(k) ==> {
        let rect = parent.items@[k as int].rect();
        let l = exit_point(rect, fx, fy);
        &&& (parent.is_element_at(l.0, l.1) ==> hit_reported(r, parent.element_id_at(l.0, l.1), via)
            && focus_set(pre, post, p, l.0, l.1))
        &&& ((parent.cell(l.0, l.1) is None || parent.cell(l.0, l.1) == Some(k))
            ==> scan_hits_outcome(pre, p, l, d, post, r, via, l))
    })
}

/// What exiting node `node` toward its parent `p` from anchor `a` forces: the
/// parent's re-entry protocol, with the exit fractions taken as the anchor
/// over this grid's sizes and a local answer coming back as a crossing into
/// the parent.
pub open spec fn exit_outcome(
    pre: LayoutTree,
    node: int,
    p: int,
    a: (int, int),
    d: Direction,
    post: LayoutTree,
    r: Result<NavigationResult, NavError>,
) -> bool {
    let g = pre.nodes@[node];
    reentry_outcome(
        pre,
        p,
        g.layout_id@,
        (a.0, g.xs()),
        (a.1, g.ys()),
        d,
        post,
        r,
        Some(p as usize),
    )
}

/// The occupant-resolution result with its option layer removed. The
/// delegation claims are phrased over this flattened form; an empty cell
/// never reaches them, so mapping it to the terminal outcome is unambiguous.
pub open spec fn flatten_hit(r: Result<Option<NavigationResult>, NavError>) -> Result<
    NavigationResult,
    NavError,
> {
    match r {
        Ok(Some(res)) => Ok(res),
        Ok(None) => Ok(NavigationResult::NoNextItem),
        Err(e) => Err(e),
    }
}

/// The outcome of reporting the current focus without moving it: nothing
/// changes; the call returns the focused element's identifier, and fails
/// precisely when the focus point is missing or addresses no element.
pub open spec fn noop_outcome(
    pre: LayoutTree,
    node: int,
    post: LayoutTree,
    r: Result<NavigationResult, NavError>,
) -> bool {
    let g = pre.nodes@[node];
    &&& post == pre
    &&& (r is Ok <==> g.focused_on_element())
    &&& (r matches Ok(res) ==> res matches NavigationResult::WithinLayout(id) && id@
        == g.focus_id())
    &&& (g.layout_state is None ==> r == Err::<NavigationResult, NavError>(NavError::NoFocus))
    &&& ((g.layout_state matches Some(p) && g.cell(p.x as int, p.y as int) is None) ==> r == Err::<
        NavigationResult,
        NavError,
    >(NavError::EmptyFocusCell))
    &&& ((g.layout_state matches Some(p) && g.is_sublayout_at(p.x as int, p.y as int)) ==> r
        == Err::<NavigationResult, NavError>(NavError::FocusOnSublayout))
}

/// The outcome of a directional request on `node`. Without a focus point it
/// fails. When the stepped anchor leaves the grid, a parentless node ends
/// with `NoNextItem` and a node with a parent crosses out per `exit_outcome`.
/// When the primary ray hits an element, or the ray misses and the side scan
/// finds one, the focus moves onto that element and its identifier is
/// returned; a ray that reaches a nested grid crosses in per
/// `child_entry_outcome`; and a scan that exhausts both ends with
/// `NoNextItem`, unchanged. `fuel` is the remaining delegation budget: any
/// positive value states the same one-hop crossing claims, and an exhausted
/// budget turns a crossing into `DepthExceeded`. What a crossing resolves
/// beyond one hop is bound by `result_valid` instead.
pub open spec fn direction_outcome(
    pre: LayoutTree,
    node: int,
    d: Direction,
    post: LayoutTree,
    r: Result<NavigationResult, NavError>,
    fuel: int,
) -> bool {
    let g = pre.nodes@[node];
    &&& (g.layout_state is None ==> r == Err::<NavigationResult, NavError>(NavError::NoFocus)
        && post == pre)
    &&& match scan_anchor(g, d) {
        Some(a) => {
            let sx = a.0 + dir_vec(d).0;
            let sy = a.1 + dir_vec(d).1;
            if !g.in_bounds(sx, sy) {
                &&& (g.parent is None ==> r == Ok::<NavigationResult, NavError>(
                    NavigationResult::NoNextItem,
                ) && post == pre)
                &&& (g.parent matches Some(p) ==> (fuel >= 1 ==> exit_outcome(
                    pre,
                    node,
                    p as int,
                    a,
                    d,
                    post,
                    r,
                )))
                &&& (g.parent is Some && fuel == 0 ==> r == Err::<NavigationResult, NavError>(
                    NavError::DepthExceeded,
                ) && post == pre)
            } else {
                match ray_first_hit(g, sx, sy, d) {
                    Some(c) => {
                        &&& (g.is_element_at(c.0, c.1) ==> (r matches Ok(
                            NavigationResult::WithinLayout(id),
                        ) && id@ == g.element_id_at(c.0, c.1) && focus_set(
                            pre,
                            post,
                            node,
                            c.0,
                            c.1,
                        )))
                        &&& (g.item_at_spec(c.0, c.1) matches Some(GridItem::Sublayout(child, rect))
                            ==> (fuel >= 1 ==> child_entry_outcome(
                            pre,
                            child as int,
                            child_entry_cell(pre.nodes@[child as int], rect, c.0, c.1),
                            d,
                            post,
                            r,
                            Some(child),
                        )))
                        &&& (g.is_sublayout_at(c.0, c.1) && fuel == 0 ==> r == Err::<
                            NavigationResult,
                            NavError,
                        >(NavError::DepthExceeded) && post == pre)
                    },
                    None => match side_scan_hit(g, sx, sy, d) {
                        Some(c) => (r matches Ok(NavigationResult::WithinLayout(id)) && id@
                            == g.element_id_at(c.0, c.1) && focus_set(pre, post, node, c.0, c.1)),
                        None => r == Ok::<NavigationResult, NavError>(NavigationResult::NoNextItem)
                            && post == pre,
                    },
                }
            }
        },
        None => true,
    }
}

/// The errors a directional scan can produce once it has an anchor: a
/// delegation chain past the budget, or a child table that does not know the
/// exiting child.
pub open spec fn scan_error(e: NavError) -> bool {
    e == NavError::DepthExceeded || e == NavError::UnknownChild
}

/// The fraction pairs a delegation carries are real fractions: denominators
/// positive and within the coordinate range, and numerators that keep entry
/// points inside the child and exit points inside the child's rectangle.
spec fn bundle_wf(b: NavigateAcrossBundle) -> bool {
    match b {
        NavigateAcrossBundle::NavigateToParent(fx, fy, _, _) => 1 <= fx.1 <= COORD_LIMIT && fx.0
            < fx.1 && 1 <= fy.1 <= COORD_LIMIT && fy.0 < fy.1,
        NavigateAcrossBundle::NavigateToChild(fx, fy, _) => 1 <= fx.1 <= COORD_LIMIT && fx.0
            <= fx.1 && 1 <= fy.1 <= COORD_LIMIT && fy.0 <= fy.1,
    }
}

impl LayoutTree {
    /// The delegation budget of one navigation request. Crossing between
    /// nodes is bounded in any well-formed layout; the budget only guards
    /// against degenerate layouts where entry and exit keep re-delegating,
    /// which end in `DepthExceeded` instead of running forever.
    pub(crate) fn nav_budget(&self) -> (f: u64)
        requires
            self.wf(),
        ensures
            f >= 1,
    {
        let mut total: u64 = 1;
        let mut i: usize = 0;
        while i < self.nodes.len()
            invariant
                self.wf(),
                i <= self.nodes@.len(),
                total >= 1,
            decreases self.nodes@.len() - i,
        {
            proof {
                assert(arena_wf_node(self.nodes@, i as int));
            }
            let xs = self.nodes[i].grid.x_size as u64;
            let ys = self.nodes[i].grid.y_size as u64;
            proof {
                lemma_mul_bound(xs as int, ys as int, COORD_LIMIT as int, COORD_LIMIT as int);
            }
            let area = xs * ys;
            total = if total > u64::MAX - area {
                u64::MAX
            } else {
                total + area
            };
            total = if total == u64::MAX {
                total
            } else {
                total + 1
            };
            i = i + 1;
        }
        total
    }

    /// Processes one directive on the node at `node`: a registered button
    /// override jumps to a grid corner and scans back inward; a direction
    /// runs the scans; `Noop`, or a button with no override, reports the
    /// current focus unchanged.
    pub(crate) fn navigate(
        &mut self,
        node: usize,
        directive: NavigationDirective,
        fuel: u64,
    ) -> (r: Result<NavigationResult, NavError>)
        requires
            old(self).wf(),
            node < old(self).nodes.len(),
        ensures
            final(self).wf(),
            nav_frame(*old(self), *final(self)),
            r matches Ok(res) ==> result_valid(*final(self), node as int, res),
            (directive is Noop || (directive matches NavigationDirective::Button(b)
                && override_lookup(old(self).nodes@[node as int].special_handler@, b) is None))
                ==> noop_outcome(*old(self), node as int, *final(self), r),
            directive matches NavigationDirective::Direction(d) ==> direction_outcome(
                *old(self),
                node as int,
                d,
                *final(self),
                r,
                fuel as int,
            ),
            directive matches NavigationDirective::Direction(_) ==> (r matches Err(e) ==> (
            scan_error(e) || (e == NavError::NoFocus && old(self).nodes@[node as int].layout_state
                is None))),
            (directive matches NavigationDirective::Button(b) && override_lookup(
                old(self).nodes@[node as int].special_handler@,
                b,
            ) is Some) ==> (r matches Err(e) ==> scan_error(e)),
            directive matches NavigationDirective::Button(b) ==> (override_lookup(
                old(self).nodes@[node as int].special_handler@,
                b,
            ) matches Some(act) ==> {
                let g = old(self).nodes@[node as int];
                let cn: (int, int) = match act {
                    SpecialHandlerAction::NavigateOutRight => (g.xs() - 1, 0int),
                    SpecialHandlerAction::NavigateOutLeft => (0int, 0int),
                };
                let d2 = match act {
                    SpecialHandlerAction::NavigateOutRight => Direction::Left,
                    SpecialHandlerAction::NavigateOutLeft => Direction::Right,
                };
                scan_hits_outcome(
                    *old(self),
                    node as int,
                    anchor_from(g, cn.0, cn.1, d2),
                    d2,
                    *final(self),
                    r,
                    None,
                    cn,
                )
            }),
        decreases fuel, 3int,
    {
        proof {
            assert(arena_wf_node(old(self).nodes@, node as int));
        }
        if let NavigationDirective::Button(b) = directive {
            match self.nodes[node].find_override(b) {
                Some(SpecialHandlerAction::NavigateOutRight) => {
                    let cx = self.nodes[node].grid.x_size - 1;
                    let sp = self.nodes[node].set_point(cx, 0);
                    assert(sp is Ok);
                    proof {
                        lemma_focus_keeps_tree_wf(*old(self), *self, node as int);
                        assert(focus_set(*old(self), *self, node as int, cx as int, 0));
                    }
                    let ghost mid = *self;
                    let res = self.navigate_direction(node, Direction::Left, fuel);
                    proof {
                        lemma_nav_frame_trans(*old(self), mid, *self);
                        lemma_scan_after_refocus(
                            *old(self),
                            mid,
                            *self,
                            node as int,
                            cx as int,
                            0,
                            Direction::Left,
                            res,
                            fuel as int,
                        );
                    }
                    return res;
                },
                Some(SpecialHandlerAction::NavigateOutLeft) => {
                    let sp = self.nodes[node].set_point(0, 0);
                    assert(sp is Ok);
                    proof {
                        lemma_focus_keeps_tree_wf(*old(self), *self, node as int);
                        assert(focus_set(*old(self), *self, node as int, 0, 0));
                    }
                    let ghost mid = *self;
                    let res = self.navigate_direction(node, Direction::Right, fuel);
                    proof {
                        lemma_nav_frame_trans(*old(self), mid, *self);
                        lemma_scan_after_refocus(
                            *old(self),
                            mid,
                            *self,
                            node as int,
                            0,
                            0,
                            Direction::Right,
                            res,
                            fuel as int,
                        );
                    }
                    return res;
                },
                None => {},
            }
        }
        if let NavigationDirective::Direction(d) = directive {
            return self.navigate_direction(node, d, fuel);
        }
        // Noop, or a button with no override: report the current focus.
        let (focus_id, _) = self.nodes[node].current_item()?;
        Ok(NavigationResult::WithinLayout(focus_id))
    }

    /// Runs the directional scans for `d` on the node at `node`: anchor at
    /// the focused element's corner, step once, delegate to the parent when
    /// that leaves the grid, and otherwise walk the primary ray and then the
    /// side scan for the next occupant.
    fn navigate_direction(&mut self, node: usize, d: Direction, fuel: u64) -> (r: Result<
        NavigationResult,
        NavError,
    >)
        requires
            old(self).wf(),
            node < old(self).nodes.len(),
        ensures
            final(self).wf(),
            nav_frame(*old(self), *final(self)),
            r matches Ok(res) ==> result_valid(*final(self), node as int, res),
            direction_outcome(*old(self), node as int, d, *final(self), r, fuel as int),
            r matches Err(e) ==> (scan_error(e) || (e == NavError::NoFocus && old(self).nodes@[node as int].layout_state is None)),
        decreases fuel, 2int,
    {
        let ghost pre = *old(self);
        proof {
            assert(arena_wf_node(old(self).nodes@, node as int));
        }
        let anchor: Point = match self.nodes[node].current_item() {
            Ok((_, rect)) => match d {
                Direction::Up | Direction::Left => rect.top_left(),
                Direction::Down | Direction::Right => rect.bottom_right(),
            },
            Err(_) => match self.nodes[node].layout_state {
                Some(p) => p,
                None => {
                    return Err(NavError::NoFocus);
                },
            },
        };
        proof {
            assert(scan_anchor(pre.nodes@[node as int], d) == Some(
                (anchor.x as int, anchor.y as int),
            ));
        }
        let (dx8, dy8) = d.as_dir_vector();
        let dx = dx8 as i32;
        let dy = dy8 as i32;
        let mut next = anchor.add(dx, dy);
        if !self.nodes[node].grid.within_bounds(next.x, next.y) {
            return self.try_navigate_out(node, anchor, d, fuel);
        }
        let ghost g = pre.nodes@[node as int];
        let ghost start = (next.x as int, next.y as int);

        // Primary scan: the first occupant straight ahead.
        while self.nodes[node].grid.within_bounds(next.x, next.y)
            invariant
                self.wf(),
                pre == *old(self),
                *self == pre,
                node < self.nodes.len(),
                g == self.nodes@[node as int],
                g.wf(),
                dx as int == dir_vec(d).0,
                dy as int == dir_vec(d).1,
                scan_anchor(g, d) == Some((anchor.x as int, anchor.y as int)),
                start == (anchor.x + dir_vec(d).0, anchor.y + dir_vec(d).1),
                g.in_bounds(start.0, start.1),
                -1 <= next.x <= g.xs(),
                -1 <= next.y <= g.ys(),
                ray_first_hit(g, start.0, start.1, d) == ray_first_hit(
                    g,
                    next.x as int,
                    next.y as int,
                    d,
                ),
            decreases ray_fuel(g, next.x as int, next.y as int, d),
        {
            let step = self.try_navigate_to_point(node, next.x as usize, next.y as usize, d, fuel);
            let ghost gstep = step;
            match step {
                Ok(Some(s)) => {
                    proof {
                        assert(flatten_hit(gstep) == Ok::<NavigationResult, NavError>(s));
                    }
                    return Ok(s);
                },
                Ok(None) => {
                    next = next.add(dx, dy);
                },
                Err(e) => {
                    proof {
                        assert(flatten_hit(gstep) == Err::<NavigationResult, NavError>(e));
                    }
                    return Err(e);
                },
            }
        }
        proof {
            assert(ray_first_hit(g, start.0, start.1, d) is None);
        }

        // Side scan: re-walk the same line, probing both perpendicular
        // directions outward at each step.
        let mut next = anchor.add(dx, dy);
        let (da, db): (Direction, Direction) = match d {
            Direction::Up | Direction::Down => (Direction::Left, Direction::Right),
            Direction::Left | Direction::Right => (Direction::Up, Direction::Down),
        };
        assert(da == side_dirs(d).0 && db == side_dirs(d).1);
        let (a8x, a8y) = da.as_dir_vector();
        let (b8x, b8y) = db.as_dir_vector();
        while self.nodes[node].grid.within_bounds(next.x, next.y)
            invariant
                self.wf(),
                pre == *old(self),
                *self == pre,
                node < self.nodes.len(),
                g == self.nodes@[node as int],
                g.wf(),
                dx as int == dir_vec(d).0,
                dy as int == dir_vec(d).1,
                scan_anchor(g, d) == Some((anchor.x as int, anchor.y as int)),
                start == (anchor.x + dir_vec(d).0, anchor.y + dir_vec(d).1),
                g.in_bounds(start.0, start.1),
                ray_first_hit(g, start.0, start.1, d) is None,
                da == side_dirs(d).0,
                db == side_dirs(d).1,
                a8x as int == dir_vec(da).0,
                a8y as int == dir_vec(da).1,
                b8x as int == dir_vec(db).0,
                b8y as int == dir_vec(db).1,
                -1 <= next.x <= g.xs(),
                -1 <= next.y <= g.ys(),
                side_scan_hit(g, start.0, start.1, d) == side_scan_hit(
                    g,
                    next.x as int,
                    next.y as int,
                    d,
                ),
            decreases ray_fuel(g, next.x as int, next.y as int, d),
        {
            let pa = next.add(a8x as i32, a8y as i32);
            match self.probe_side(node, pa, da, d, fuel)? {
                Some(s) => {
                    return Ok(s);
                },
                None => {},
            }
            let pb = next.add(b8x as i32, b8y as i32);
            match self.probe_side(node, pb, db, d, fuel)? {
                Some(s) => {
                    return Ok(s);
                },
                None => {},
            }
            next = next.add(dx, dy);
        }
        proof {
            assert(side_scan_hit(g, start.0, start.1, d) is None);
        }
        Ok(NavigationResult::NoNextItem)
    }

    /// One sideways probe from `from` along `pd`: walks until it leaves the
    /// grid or reaches an occupant, landing on an element and blocked by a
    /// nested layout. `d` is the direction the whole request scans, handed on
    /// to occupant resolution.
    fn probe_side(&mut self, node: usize, from: Point, pd: Direction, d: Direction, fuel: u64) -> (r:
        Result<Option<NavigationResult>, NavError>)
        requires
            old(self).wf(),
            node < old(self).nodes.len(),
            -1 <= from.x <= old(self).nodes@[node as int].xs(),
            -1 <= from.y <= old(self).nodes@[node as int].ys(),
        ensures
            final(self).wf(),
            nav_frame(*old(self), *final(self)),
            r matches Ok(Some(res)) ==> result_valid(*final(self), node as int, res),
            side_probe_hit(old(self).nodes@[node as int], from.x as int, from.y as int, pd)
                matches Some(c) ==> (r matches Ok(Some(NavigationResult::WithinLayout(id))) && id@
                == old(self).nodes@[node as int].element_id_at(c.0, c.1) && focus_set(
                *old(self),
                *final(self),
                node as int,
                c.0,
                c.1,
            )),
            side_probe_hit(old(self).nodes@[node as int], from.x as int, from.y as int, pd)
                is None ==> r == Ok::<Option<NavigationResult>, NavError>(None) && *final(self)
                == *old(self),
        decreases fuel, 1int,
    {
        let ghost pre = *old(self);
        let ghost g = pre.nodes@[node as int];
        proof {
            assert(arena_wf_node(old(self).nodes@, node as int));
        }
        let (pdx8, pdy8) = pd.as_dir_vector();
        let pdx = pdx8 as i32;
        let pdy = pdy8 as i32;
        let mut p = from;
        while self.nodes[node].grid.within_bounds(p.x, p.y)
            invariant
                self.wf(),
                pre == *old(self),
                *self == pre,
                node < self.nodes.len(),
                g == self.nodes@[node as int],
                g.wf(),
                pdx as int == dir_vec(pd).0,
                pdy as int == dir_vec(pd).1,
                -1 <= p.x <= g.xs(),
                -1 <= p.y <= g.ys(),
                side_probe_hit(g, from.x as int, from.y as int, pd) == side_probe_hit(
                    g,
                    p.x as int,
                    p.y as int,
                    pd,
                ),
            decreases ray_fuel(g, p.x as int, p.y as int, pd),
        {
            // A nested layout blocks the probe outright.
            match self.nodes[node].item_at(p.x as usize, p.y as usize)? {
                Some(GridItem::Sublayout(_, _)) => {
                    return Ok(None);
                },
                _ => {},
            }
            match self.try_navigate_to_point(node, p.x as usize, p.y as usize, d, fuel)? {
                Some(s) => {
                    return Ok(Some(s));
                },
                None => {
                    p = p.add(pdx, pdy);
                },
            }
        }
        Ok(None)
    }

    /// Resolves the occupant at `(x, y)`: an empty cell is no result; an
    /// element takes the focus and is returned; a nested layout receives the
    /// scan through the child-entry protocol, and its `WithinLayout` comes
    /// back as `AcrossLayout` into that child.
    fn try_navigate_to_point(
        &mut self,
        node: usize,
        x: usize,
        y: usize,
        d: Direction,
        fuel: u64,
    ) -> (r: Result<Option<NavigationResult>, NavError>)
        requires
            old(self).wf(),
            node < old(self).nodes.len(),
            old(self).nodes@[node as int].in_bounds(x as int, y as int),
        ensures
            final(self).wf(),
            nav_frame(*old(self), *final(self)),
            r matches Ok(Some(res)) ==> result_valid(*final(self), node as int, res),
            old(self).nodes@[node as int].cell(x as int, y as int) is None <==> r == Ok::<
                Option<NavigationResult>,
                NavError,
            >(None),
            r == Ok::<Option<NavigationResult>, NavError>(None) ==> *final(self) == *old(self),
            old(self).nodes@[node as int].is_element_at(x as int, y as int) ==> (r matches Ok(
                Some(NavigationResult::WithinLayout(id)),
            ) && id@ == old(self).nodes@[node as int].element_id_at(x as int, y as int)
                && focus_set(*old(self), *final(self), node as int, x as int, y as int)),
            old(self).nodes@[node as int].item_at_spec(x as int, y as int) matches Some(
                GridItem::Sublayout(child, rect),
            ) ==> (fuel >= 1 ==> child_entry_outcome(
                *old(self),
                child as int,
                child_entry_cell(old(self).nodes@[child as int], rect, x as int, y as int),
                d,
                *final(self),
                flatten_hit(r),
                Some(child),
            )),
            (old(self).nodes@[node as int].is_sublayout_at(x as int, y as int) && fuel == 0) ==> r
                == Err::<Option<NavigationResult>, NavError>(NavError::DepthExceeded) && *final(self) == *old(self),
            r matches Err(e) ==> scan_error(e),
        decreases fuel, 0int,
    {
        proof {
            assert(arena_wf_node(old(self).nodes@, node as int));
        }
        let idx = match self.nodes[node].grid.at(x, y)? {
            Some(i) => i,
            None => {
                return Ok(None);
            },
        };
        let it = self.nodes[node].item_snapshot(idx);
        match it {
            GridItem::Element(id, _) => {
                let sp = self.nodes[node].set_point(x, y);
                assert(sp is Ok);
                proof {
                    lemma_focus_keeps_tree_wf(*old(self), *self, node as int);
                }
                Ok(Some(NavigationResult::WithinLayout(id)))
            },
            GridItem::Sublayout(child, rect) => {
                if fuel == 0 {
                    return Err(NavError::DepthExceeded);
                }
                // The entry fraction: where the landing cell sits inside the
                // child's rectangle, exact as numerator over denominator.
                let fx: (usize, usize) = if rect.x_end == rect.x_start {
                    (0, 1)
                } else {
                    (x - rect.x_start, rect.x_end - rect.x_start)
                };
                let fy: (usize, usize) = if rect.y_end == rect.y_start {
                    (0, 1)
                } else {
                    (y - rect.y_start, rect.y_end - rect.y_start)
                };
                proof {
                    assert((fx.0 as int, fx.1 as int) == entry_fraction(
                        rect.x_start as int,
                        rect.x_end as int,
                        x as int,
                    ));
                    assert((fy.0 as int, fy.1 as int) == entry_fraction(
                        rect.y_start as int,
                        rect.y_end as int,
                        y as int,
                    ));
                }
                let resr = self.navigate_into(
                    child,
                    NavigateAcrossBundle::NavigateToChild(fx, fy, d),
                    fuel - 1,
                );
                let ghost e = child_entry_cell(
                    old(self).nodes@[child as int],
                    rect,
                    x as int,
                    y as int,
                );
                let res = match resr {
                    Ok(res) => res,
                    Err(err) => {
                        proof {
                            lemma_entry_outcome_mapped(
                                *old(self),
                                child as int,
                                e,
                                d,
                                *self,
                                Err(err),
                                Err(err),
                                child,
                            );
                        }
                        return Err(err);
                    },
                };
                let ghost gres = res;
                let out = match res {
                    NavigationResult::WithinLayout(s) => Ok(
                        Some(NavigationResult::AcrossLayout(s, child)),
                    ),
                    NavigationResult::AcrossLayout(s, w) => Ok(
                        Some(NavigationResult::AcrossLayout(s, w)),
                    ),
                    NavigationResult::NoNextItem => Ok(Some(NavigationResult::NoNextItem)),
                };
                proof {
                    lemma_entry_outcome_mapped(
                        *old(self),
                        child as int,
                        e,
                        d,
                        *self,
                        Ok(gres),
                        flatten_hit(out),
                        child,
                    );
                }
                out
            },
        }
    }

    /// Crosses to the parent when a scan would leave this grid: reports the
    /// exit position as fractions of this grid's size, and turns the parent's
    /// `WithinLayout` into `AcrossLayout` into the parent. A parentless node
    /// ends the scan with `NoNextItem`.
    fn try_navigate_out(&mut self, node: usize, out_from: Point, d: Direction, fuel: u64) -> (r:
        Result<NavigationResult, NavError>)
        requires
            old(self).wf(),
            node < old(self).nodes.len(),
            old(self).nodes@[node as int].in_bounds(out_from.x as int, out_from.y as int),
        ensures
            final(self).wf(),
            nav_frame(*old(self), *final(self)),
            r matches Ok(res) ==> result_valid(*final(self), node as int, res),
            old(self).nodes@[node as int].parent is None ==> r == Ok::<
                NavigationResult,
                NavError,
            >(NavigationResult::NoNextItem) && *final(self) == *old(self),
            (old(self).nodes@[node as int].parent is Some && fuel == 0) ==> r == Err::<
                NavigationResult,
                NavError,
            >(NavError::DepthExceeded) && *final(self) == *old(self),
            old(self).nodes@[node as int].parent matches Some(p) ==> (fuel >= 1 ==> exit_outcome(
                *old(self),
                node as int,
                p as int,
                (out_from.x as int, out_from.y as int),
                d,
                *final(self),
                r,
            )),
            r matches Ok(res) ==> !(res matches NavigationResult::WithinLayout(_)),
            r matches Err(e) ==> scan_error(e),
        decreases fuel, 1int,
    {
        proof {
            assert(arena_wf_node(old(self).nodes@, node as int));
        }
        let p = match self.nodes[node].parent {
            Some(p) => p,
            None => {
                return Ok(NavigationResult::NoNextItem);
            },
        };
        if fuel == 0 {
            return Err(NavError::DepthExceeded);
        }
        let fx = (out_from.x as usize, self.nodes[node].grid.x_size);
        let fy = (out_from.y as usize, self.nodes[node].grid.y_size);
        let child_id = self.nodes[node].layout_id.clone();
        let ghost cid = child_id@;
        let ghost fxi = (out_from.x as int, old(self).nodes@[node as int].xs());
        let ghost fyi = (out_from.y as int, old(self).nodes@[node as int].ys());
        let resr = self.navigate_into(
            p,
            NavigateAcrossBundle::NavigateToParent(fx, fy, d, child_id),
            fuel - 1,
        );
        let res = match resr {
            Ok(res) => res,
            Err(err) => {
                proof {
                    lemma_reentry_outcome_mapped(
                        *old(self),
                        p as int,
                        cid,
                        fxi,
                        fyi,
                        d,
                        *self,
                        Err(err),
                        Err(err),
                        p,
                    );
                }
                return Err(err);
            },
        };
        let ghost gres = res;
        let out = match res {
            NavigationResult::WithinLayout(s) => Ok(NavigationResult::AcrossLayout(s, p)),
            NavigationResult::AcrossLayout(s, w) => Ok(NavigationResult::AcrossLayout(s, w)),
            NavigationResult::NoNextItem => Ok(NavigationResult::NoNextItem),
        };
        proof {
            lemma_reentry_outcome_mapped(
                *old(self),
                p as int,
                cid,
                fxi,
                fyi,
                d,
                *self,
                Ok(gres),
                out,
                p,
            );
        }
        out
    }

    /// Receives a delegated scan on the node at `node`. From a parent handing
    /// off: land where the entry fraction maps into this grid's inclusive
    /// index range, take whatever stands there, and scan onward from that
    /// anchor when the landing cell is empty. From a child exiting: land
    /// where the exit fraction maps into the child's rectangle, resolve what
    /// stands there — except the child that just exited — and scan onward
    /// from that anchor otherwise.
    fn navigate_into(&mut self, node: usize, bundle: NavigateAcrossBundle, fuel: u64) -> (r:
        Result<NavigationResult, NavError>)
        requires
            old(self).wf(),
            node < old(self).nodes.len(),
            bundle_wf(bundle),
        ensures
            final(self).wf(),
            nav_frame(*old(self), *final(self)),
            r matches Ok(res) ==> result_valid(*final(self), node as int, res),
            bundle matches NavigateAcrossBundle::NavigateToChild(fx, fy, dd) ==> child_entry_outcome(
                *old(self),
                node as int,
                entry_point(
                    old(self).nodes@[node as int].xs(),
                    old(self).nodes@[node as int].ys(),
                    (fx.0 as int, fx.1 as int),
                    (fy.0 as int, fy.1 as int),
                ),
                dd,
                *final(self),
                r,
                None,
            ),
            bundle matches NavigateAcrossBundle::NavigateToParent(fx, fy, dd, cid) ==> reentry_outcome(
                *old(self),
                node as int,
                cid@,
                (fx.0 as int, fx.1 as int),
                (fy.0 as int, fy.1 as int),
                dd,
                *final(self),
                r,
                None,
            ),
            r matches Err(e) ==> scan_error(e),
        decreases fuel, 4int,
    {
        proof {
            assert(arena_wf_node(old(self).nodes@, node as int));
        }
        match bundle {
            NavigateAcrossBundle::NavigateToParent(fx, fy, d, child_id) => {
                let k = match self.nodes[node].find_sublayout_entry(child_id.as_str()) {
                    Some(k) => k,
                    None => {
                        return Err(NavError::UnknownChild);
                    },
                };
                proof {
                    crate::layout::lemma_sublayout_lookup_member(
                        self.nodes@[node as int].sublayouts@,
                        child_id@,
                    );
                }
                let it = self.nodes[node].item_snapshot(k);
                let rect = match it {
                    GridItem::Sublayout(_, rect) => rect,
                    GridItem::Element(_, _) => {
                        return Err(NavError::UnknownChild);
                    },
                };
                // Map the exit fraction back into this grid, inside the
                // child's rectangle.
                proof {
                    lemma_fraction_maps_into_extent(
                        rect.x_start as int,
                        rect.x_end as int,
                        fx.0 as int,
                        fx.1 as int,
                    );
                    lemma_fraction_maps_into_extent(
                        rect.y_start as int,
                        rect.y_end as int,
                        fy.0 as int,
                        fy.1 as int,
                    );
                    lemma_mul_bound(
                        rect.x_end - rect.x_start,
                        fx.0 as int,
                        COORD_LIMIT as int,
                        COORD_LIMIT as int,
                    );
                    lemma_mul_bound(
                        rect.y_end - rect.y_start,
                        fy.0 as int,
                        COORD_LIMIT as int,
                        COORD_LIMIT as int,
                    );
                }
                let lx = (rect.x_start as u64 + ((rect.x_end - rect.x_start) as u64 * fx.0 as u64
                    / fx.1 as u64)) as usize;
                let ly = (rect.y_start as u64 + ((rect.y_end - rect.y_start) as u64 * fy.0 as u64
                    / fy.1 as u64)) as usize;
                let sp = self.nodes[node].set_point(lx, ly);
                assert(sp is Ok);
                proof {
                    lemma_focus_keeps_tree_wf(*old(self), *self, node as int);
                    assert(focus_set(*old(self), *self, node as int, lx as int, ly as int));
                }
                let ghost mid = *self;
                // Resolve the landing cell, unless it is the child that just
                // exited: scanning onward handles that case.
                let exiting_child_here = match self.nodes[node].grid.at(lx, ly)? {
                    Some(ci) => ci == k,
                    None => false,
                };
                if !exiting_child_here {
                    match self.try_navigate_to_point(node, lx, ly, d, fuel)? {
                        Some(res) => {
                            proof {
                                if old(self).nodes@[node as int].is_element_at(
                                    lx as int,
                                    ly as int,
                                ) {
                                    lemma_focus_set_compose(
                                        *old(self),
                                        mid,
                                        *self,
                                        node as int,
                                        lx as int,
                                        ly as int,
                                        lx as int,
                                        ly as int,
                                    );
                                }
                            }
                            return Ok(res);
                        },
                        None => {},
                    }
                }
                proof {
                    assert(!old(self).nodes@[node as int].is_element_at(lx as int, ly as int));
                    assert(anchor_from(
                        old(self).nodes@[node as int],
                        lx as int,
                        ly as int,
                        d,
                    ) == (lx as int, ly as int));
                }
                let r2 = self.navigate(node, NavigationDirective::Direction(d), fuel);
                proof {
                    lemma_scan_after_refocus(
                        *old(self),
                        mid,
                        *self,
                        node as int,
                        lx as int,
                        ly as int,
                        d,
                        r2,
                        fuel as int,
                    );
                }
                r2
            },
            NavigateAcrossBundle::NavigateToChild(fx, fy, d) => {
                let xs = self.nodes[node].grid.x_size;
                let ys = self.nodes[node].grid.y_size;
                proof {
                    lemma_fraction_maps_into_extent(0, xs as int - 1, fx.0 as int, fx.1 as int);
                    lemma_fraction_maps_into_extent(0, ys as int - 1, fy.0 as int, fy.1 as int);
                    lemma_mul_bound(
                        xs as int - 1,
                        fx.0 as int,
                        COORD_LIMIT as int,
                        COORD_LIMIT as int,
                    );
                    lemma_mul_bound(
                        ys as int - 1,
                        fy.0 as int,
                        COORD_LIMIT as int,
                        COORD_LIMIT as int,
                    );
                }
                let ex = ((xs - 1) as u64 * fx.0 as u64 / fx.1 as u64) as usize;
                let ey = ((ys - 1) as u64 * fy.0 as u64 / fy.1 as u64) as usize;
                let sp = self.nodes[node].set_point(ex, ey);
                assert(sp is Ok);
                proof {
                    lemma_focus_keeps_tree_wf(*old(self), *self, node as int);
                    assert(focus_set(*old(self), *self, node as int, ex as int, ey as int));
                }
                let ghost mid = *self;
                match self.try_navigate_to_point(node, ex, ey, d, fuel)? {
                    Some(res) => {
                        proof {
                            if old(self).nodes@[node as int].is_element_at(ex as int, ey as int) {
                                lemma_focus_set_compose(
                                    *old(self),
                                    mid,
                                    *self,
                                    node as int,
                                    ex as int,
                                    ey as int,
                                    ex as int,
                                    ey as int,
                                );
                            }
                        }
                        Ok(res)
                    },
                    None => {
                        proof {
                            assert(!old(self).nodes@[node as int].is_element_at(
                                ex as int,
                                ey as int,
                            ));
                            assert(anchor_from(
                                old(self).nodes@[node as int],
                                ex as int,
                                ey as int,
                                d,
                            ) == (ex as int, ey as int));
                        }
                        let r2 = self.navigate(node, NavigationDirective::Direction(d), fuel);
                        proof {
                            lemma_scan_after_refocus(
                                *old(self),
                                mid,
                                *self,
                                node as int,
                                ex as int,
                                ey as int,
                                d,
                                r2,
                                fuel as int,
                            );
                        }
                        r2
                    },
                }
            },
        }
    }
}

/// The claims about a child entry survive reporting the answer back over the
/// edge: the child's own `WithinLayout` becomes `AcrossLayout` into the
/// child, everything else passes through unchanged.
proof fn lemma_entry_outcome_mapped(
    pre: LayoutTree,
    child: int,
    e: (int, int),
    d: Direction,
    post: LayoutTree,
    r1: Result<NavigationResult, NavError>,
    r2: Result<NavigationResult, NavError>,
    into: usize,
)
    requires
        child == into as int,
        child_entry_outcome(pre, child, e, d, post, r1, None),
        r1 matches Ok(NavigationResult::WithinLayout(s)) ==> r2 == Ok::<
            NavigationResult,
            NavError,
        >(NavigationResult::AcrossLayout(s, into)),
        r1 == Ok::<NavigationResult, NavError>(NavigationResult::NoNextItem) ==> r2 == Ok::<
            NavigationResult,
            NavError,
        >(NavigationResult::NoNextItem),
        r1 matches Err(err) ==> r2 == Err::<NavigationResult, NavError>(err),
    ensures
        child_entry_outcome(pre, child, e, d, post, r2, Some(into)),
{
}

/// The claims about a parent's re-entry survive reporting the answer back
/// over the edge the same way.
proof fn lemma_reentry_outcome_mapped(
    pre: LayoutTree,
    p: int,
    cid: Seq<char>,
    fx: (int, int),
    fy: (int, int),
    d: Direction,
    post: LayoutTree,
    r1: Result<NavigationResult, NavError>,
    r2: Result<NavigationResult, NavError>,
    into: usize,
)
    requires
        p == into as int,
        reentry_outcome(pre, p, cid, fx, fy, d, post, r1, None),
        r1 matches Ok(NavigationResult::WithinLayout(s)) ==> r2 == Ok::<
            NavigationResult,
            NavError,
        >(NavigationResult::AcrossLayout(s, into)),
        r1 == Ok::<NavigationResult, NavError>(NavigationResult::NoNextItem) ==> r2 == Ok::<
            NavigationResult,
            NavError,
        >(NavigationResult::NoNextItem),
        r1 matches Err(err) ==> r2 == Err::<NavigationResult, NavError>(err),
    ensures
        reentry_outcome(pre, p, cid, fx, fy, d, post, r2, Some(into)),
{
}

/// The primary ray reads only the grid and item tables, never the focus
/// point.
proof fn lemma_ray_ignores_focus(g1: LayoutGrid, g2: LayoutGrid, x: int, y: int, d: Direction)
    requires
        g1.grid == g2.grid,
        g1.items == g2.items,
    ensures
        ray_first_hit(g1, x, y, d) == ray_first_hit(g2, x, y, d),
    decreases ray_fuel(g1, x, y, d),
{
    if g1.in_bounds(x, y) && g1.cell(x, y) is None {
        lemma_ray_ignores_focus(g1, g2, x + dir_vec(d).0, y + dir_vec(d).1, d);
    }
}

/// A sideways probe reads only the grid and item tables, never the focus
/// point.
proof fn lemma_probe_ignores_focus(g1: LayoutGrid, g2: LayoutGrid, x: int, y: int, pd: Direction)
    requires
        g1.grid == g2.grid,
        g1.items == g2.items,
    ensures
        side_probe_hit(g1, x, y, pd) == side_probe_hit(g2, x, y, pd),
    decreases ray_fuel(g1, x, y, pd),
{
    if g1.in_bounds(x, y) && !g1.is_sublayout_at(x, y) && g1.cell(x, y) is None {
        lemma_probe_ignores_focus(g1, g2, x + dir_vec(pd).0, y + dir_vec(pd).1, pd);
    }
}

/// The side scan reads only the grid and item tables, never the focus point.
proof fn lemma_side_scan_ignores_focus(g1: LayoutGrid, g2: LayoutGrid, x: int, y: int, d: Direction)
    requires
        g1.grid == g2.grid,
        g1.items == g2.items,
    ensures
        side_scan_hit(g1, x, y, d) == side_scan_hit(g2, x, y, d),
    decreases ray_fuel(g1, x, y, d),
{
    if g1.in_bounds(x, y) {
        let a = side_dirs(d).0;
        let b = side_dirs(d).1;
        lemma_probe_ignores_focus(g1, g2, x + dir_vec(a).0, y + dir_vec(a).1, a);
        lemma_probe_ignores_focus(g1, g2, x + dir_vec(b).0, y + dir_vec(b).1, b);
        if side_probe_hit(g1, x + dir_vec(a).0, y + dir_vec(a).1, a) is None && side_probe_hit(
            g1,
            x + dir_vec(b).0,
            y + dir_vec(b).1,
            b,
        ) is None {
            lemma_side_scan_ignores_focus(g1, g2, x + dir_vec(d).0, y + dir_vec(d).1, d);
        }
    }
}

/// Two focus moves on the same node compose: the later one wins.
proof fn lemma_focus_set_compose(
    pre: LayoutTree,
    mid: LayoutTree,
    post: LayoutTree,
    n: int,
    x1: int,
    y1: int,
    x2: int,
    y2: int,
)
    requires
        0 <= n < pre.nodes.len(),
        focus_set(pre, mid, n, x1, y1),
        focus_set(mid, post, n, x2, y2),
    ensures
        focus_set(pre, post, n, x2, y2),
{
    assert forall|m: int|
        0 <= m < pre.nodes.len() && m != n implies post.nodes@[m] == #[trigger] pre.nodes@[m] by {
        assert(mid.nodes@[m] == pre.nodes@[m]);
    }
}

/// A scan run right after the focus of `node` moved to `(px, py)` forces,
/// relative to the state before the move, the locally resolving outcomes that
/// `scan_hits_outcome` lists, anchored where a scan from that focus anchors.
proof fn lemma_scan_after_refocus(
    pre: LayoutTree,
    mid: LayoutTree,
    post: LayoutTree,
    node: int,
    px: int,
    py: int,
    d: Direction,
    r: Result<NavigationResult, NavError>,
    fuel: int,
)
    requires
        0 <= node < pre.nodes.len(),
        0 <= px <= COORD_LIMIT,
        0 <= py <= COORD_LIMIT,
        focus_set(pre, mid, node, px, py),
        direction_outcome(mid, node, d, post, r, fuel),
    ensures
        scan_hits_outcome(
            pre,
            node,
            anchor_from(pre.nodes@[node], px, py, d),
            d,
            post,
            r,
            None,
            (px, py),
        ),
{
    let g1 = pre.nodes@[node];
    let g2 = mid.nodes@[node];
    assert(g2.grid == g1.grid && g2.items == g1.items);
    assert(g2.layout_state == Some(Point { x: px as i32, y: py as i32 }));
    let a = anchor_from(g1, px, py, d);
    assert(g2.is_element_at(px, py) == g1.is_element_at(px, py));
    if g1.is_element_at(px, py) {
        assert(g2.rect_at(px, py) == g1.rect_at(px, py));
    }
    assert(scan_anchor(g2, d) == Some(a));
    let sx = a.0 + dir_vec(d).0;
    let sy = a.1 + dir_vec(d).1;
    lemma_ray_ignores_focus(g1, g2, sx, sy, d);
    lemma_side_scan_ignores_focus(g1, g2, sx, sy, d);
    if g1.in_bounds(sx, sy) {
        match ray_first_hit(g1, sx, sy, d) {
            Some(c) => {
                if g1.is_element_at(c.0, c.1) {
                    assert(focus_set(mid, post, node, c.0, c.1));
                    lemma_focus_set_compose(pre, mid, post, node, px, py, c.0, c.1);
                }
            },
            None => {
                match side_scan_hit(g1, sx, sy, d) {
                    Some(c) => {
                        assert(focus_set(mid, post, node, c.0, c.1));
                        lemma_focus_set_compose(pre, mid, post, node, px, py, c.0, c.1);
                    },
                    None => {
                        assert(post == mid);
                    },
                }
            },
        }
    } else {
        if g1.parent is None {
            assert(post == mid);
        }
    }
}

/// A node that is well formed in one arena stays well formed in any arena at
/// least as long that holds the same node at its index: its own value and the
/// indices it holds are untouched.
pub(crate) proof fn lemma_wf_node_extends(s1: Seq<LayoutGrid>, s2: Seq<LayoutGrid>, i: int)
    requires
        arena_wf_node(s1, i),
        s1.len() <= s2.len(),
        s2[i] == s1[i],
    ensures
        arena_wf_node(s2, i),
{
    assert forall|q: int|
        0 <= q < s2[i].items.len() implies match #[trigger] s2[i].items@[q] {
        GridItem::Sublayout(c, _) => 0 <= c < s2.len(),
        GridItem::Element(_, _) => true,
    } by {
        assert(s2[i].items@[q] == s1[i].items@[q]);
    }
    assert forall|q: int|
        0 <= q < s2[i].sublayouts@.len() implies (#[trigger] s2[i].sublayouts@[q]).1
            < s2[i].items.len() && s2[i].items@[s2[i].sublayouts@[q].1 as int] matches GridItem::Sublayout(_, _) by {
        assert(s2[i].sublayouts@[q] == s1[i].sublayouts@[q]);
    }
}

/// The navigation frame relation is transitive.
proof fn lemma_nav_frame_trans(a: LayoutTree, b: LayoutTree, c: LayoutTree)
    requires
        nav_frame(a, b),
        nav_frame(b, c),
    ensures
        nav_frame(a, c),
{
    assert forall|n: int|
        0 <= n < a.nodes.len() implies same_but_focus(#[trigger] a.nodes@[n], c.nodes@[n]) by {
        assert(same_but_focus(a.nodes@[n], b.nodes@[n]));
        assert(same_but_focus(b.nodes@[n], c.nodes@[n]));
    }
}

/// Moving one node's focus point to an in-bounds cell keeps the whole tree
/// well formed.
pub(crate) proof fn lemma_focus_keeps_tree_wf(pre: LayoutTree, post: LayoutTree, n: int)
    requires
        pre.wf(),
        0 <= n < pre.nodes.len(),
        post.nodes.len() == pre.nodes.len(),
        post.root == pre.root,
        forall|m: int| 0 <= m < pre.nodes.len() && m != n ==> post.nodes@[m] == pre.nodes@[m],
        post.nodes@[n].wf(),
        same_but_focus(pre.nodes@[n], post.nodes@[n]),
    ensures
        post.wf(),
        nav_frame(pre, post),
{
    assert forall|m: int| 0 <= m < post.nodes.len() implies arena_wf_node(post.nodes@, m) by {
        assert(arena_wf_node(pre.nodes@, m));
        if m != n {
            assert(post.nodes@[m] == pre.nodes@[m]);
        }
    }
}

/// A product of bounded non-negative factors is bounded by the product of
/// the bounds.
proof fn lemma_mul_bound(a: int, b: int, ca: int, cb: int)
    requires
        0 <= a <= ca,
        0 <= b <= cb,
    ensures
        a * b <= ca * cb,
{
    assert(a * b <= ca * cb) by (nonlinear_arith)
        requires
            0 <= a <= ca,
            0 <= b <= cb,
    ;
}

/// Mapping a fraction with numerator under denominator over a rectangle
/// extent lands inside the rectangle: `lo + (hi - lo) * n / d` lies between
/// `lo` and `hi`.
proof fn lemma_fraction_maps_into_extent(lo: int, hi: int, n: int, d: int)
    requires
        0 <= lo <= hi,
        0 <= n <= d,
        1 <= d,
    ensures
        lo <= lo + (hi - lo) * n / d <= hi,
{
    let ext = hi - lo;
    assert(ext * n >= 0) by (nonlinear_arith)
        requires
            ext >= 0,
            n >= 0,
    ;
    assert(ext * n <= ext * d) by (nonlinear_arith)
        requires
            n <= d,
            ext >= 0,
    ;
    assert(ext * n / d >= 0);
    assert(ext * n / d <= ext) by {
        assert(ext * d / d == ext) by (nonlinear_arith)
            requires
                d >= 1,
        ;
        vstd::arithmetic::div_mod::lemma_div_is_ordered(ext * n, ext * d, d);
    }
}

} // verus!

//! Hierarchical spatial-focus navigation over a tree of occupancy grids.
//!
//! A layout is a tree of nodes; each node owns a dense two-dimensional grid
//! whose cells are either empty or hold an occupant: a focusable element or a
//! nested child node. Directional navigation scans a grid for the next
//! occupant, crossing into nested grids and back out to the parent when a scan
//! leaves the current bounds. A node may instead be configured as growable,
//! accepting append-only insertions along one axis.

mod errors;
mod geometry;
mod grid2d;
mod layout;
mod builder;
mod controller;
mod tree;

pub use errors::NavError;
pub use geometry::{Direction, Point, Rect};
pub use grid2d::Grid2D;
pub use layout::{ButtonID, FocusID, GridItem, GrowConfig, GrowDirection, LayoutGrid, LayoutID, SpecialHandlerAction};
pub use builder::LayoutGridBuilder;
pub use controller::{create_home_window_controller, NavigationController};
pub use tree::{LayoutTree, NavigationDirective, NavigationResult};

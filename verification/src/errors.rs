use vstd::prelude::*;

verus! {

/// Why a grid, navigation, build or insertion call failed.
///
/// `NoNextItem` is not here: running out of candidates is a defined
/// navigation outcome, not a failure.
#[derive(Debug, Clone, Copy, PartialEq, Eq, Structural)]
pub enum NavError {
    /// A rectangle whose end lies before its start.
    InvalidRect,
    /// A grid dimension of zero.
    InvalidGridSize,
    /// A grid dimension beyond the coordinate range.
    GridTooLarge,
    /// A fill rectangle reaching outside the grid.
    OversizedRect,
    /// A fill touching an already occupied cell.
    OverlappingFill,
    /// An expansion to a smaller size.
    ShrinkingExpand,
    /// A coordinate outside the grid.
    OutOfBounds,
    /// Navigation before any focus point was initialised.
    NoFocus,
    /// A focus point addressing an empty cell.
    EmptyFocusCell,
    /// A focus point addressing a nested layout instead of an element.
    FocusOnSublayout,
    /// A child identifier with no registered sublayout.
    UnknownChild,
    /// A node index that addresses no node of the tree.
    DanglingNodeRef,
    /// Insertion on a node with no grow configuration.
    NotGrowable,
    /// A build call on a builder that is not the root builder.
    NonRootBuild,
    /// Mixing fixed elements with a grow configuration on one builder.
    MixedGrowable,
    /// A delegation chain deeper than the navigation budget allows.
    DepthExceeded,
}

} // verus!

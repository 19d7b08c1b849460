//! Overlay identifiers and layout primitives (overlays are surfaces with modal defaults).

use vstd::prelude::*;

verus! {

/// Stable identifier for an overlay owned by a single runtime instance.
#[derive(Clone, Copy, Debug, PartialEq, Eq, Structural, Hash, PartialOrd, Ord)]
pub struct OverlayId(u64);

impl OverlayId {
    pub closed spec fn id(self) -> nat {
        self.0 as nat
    }

    /// The number; `from_raw` of it gives the same identifier back.
    pub fn raw(self) -> (r: u64)
        ensures
            r == self.id(),
            self == OverlayId::with_id(r as nat),
    {
        self.0
    }

    /// The identifier with number `raw`.
    pub closed spec fn with_id(raw: nat) -> OverlayId {
        OverlayId(raw as u64)
    }

    pub fn from_raw(raw: u64) -> (r: Self)
        ensures
            r.id() == raw,
            r == OverlayId::with_id(raw as nat),
    {
        OverlayId(raw)
    }
}

/// Overlay anchoring positions inside the available terminal area.
#[derive(Debug, Clone, Copy, PartialEq, Eq, Structural)]
pub enum OverlayAnchor {
    Center,
    TopLeft,
    TopRight,
    BottomLeft,
    BottomRight,
    TopCenter,
    BottomCenter,
    LeftCenter,
    RightCenter,
}

/// Optional non-negative margins around overlay layout bounds.
#[derive(Debug, Clone, Copy, PartialEq, Eq, Structural)]
pub struct OverlayMargin {
    pub top: Option<usize>,
    pub right: Option<usize>,
    pub bottom: Option<usize>,
    pub left: Option<usize>,
}

impl OverlayMargin {
    /// The same margin on all sides.
    pub fn uniform(value: usize) -> (r: Self)
        ensures
            r == (OverlayMargin { top: Some(value), right: Some(value), bottom: Some(value), left: Some(value) }),
    {
        OverlayMargin { top: Some(value), right: Some(value), bottom: Some(value), left: Some(value) }
    }
}

/// Visibility policy for showing overlays at a given terminal size.
#[derive(Debug, Clone, Copy, PartialEq, Eq, Structural)]
pub enum OverlayVisibility {
    Always,
    MinCols(usize),
    MinSize { cols: usize, rows: usize },
}

impl OverlayVisibility {
    /// Whether an overlay with this policy shows at the given terminal size.
    pub fn allows(&self, columns: usize, rows: usize) -> (r: bool)
        ensures
            r == match *self {
                OverlayVisibility::Always => true,
                OverlayVisibility::MinCols(min_cols) => columns >= min_cols,
                OverlayVisibility::MinSize { cols, rows: min_rows } => columns >= cols && rows >= min_rows,
            },
    {
        match *self {
            OverlayVisibility::Always => true,
            OverlayVisibility::MinCols(min_cols) => columns >= min_cols,
            OverlayVisibility::MinSize { cols, rows: min_rows } => columns >= cols && rows >= min_rows,
        }
    }
}

impl Default for OverlayVisibility {
    fn default() -> (r: Self)
        ensures
            r == OverlayVisibility::Always,
    {
        OverlayVisibility::Always
    }
}

} // verus!

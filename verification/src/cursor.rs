//! Cursor positions reported by components.

use vstd::prelude::*;

verus! {

/// A cursor position inside rendered output: `row` counts lines, `col` counts cells.
#[derive(Clone, Copy, Debug, PartialEq, Eq, Structural)]
pub struct CursorPos {
    pub row: usize,
    pub col: usize,
}

} // verus!

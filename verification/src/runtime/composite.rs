//! The decisions of surface compositing that follow rendering: lane reservations, cutting a
//! surface to its height, the working height and first shown row, and the overlay cursor.

use vstd::prelude::*;

use crate::cursor::CursorPos;
use crate::runtime::surface::{lane_of, SurfaceKind, SurfaceLane};
use crate::text::sat;
use crate::widgets::md_layout::{image_line, is_image_line};

verus! {

/// A rendered surface placed on the screen: its lines, its top row and left column, the width
/// it was laid out at, and the cursor it reported (relative to its own lines).
pub struct PlacedSurface {
    pub lines: Vec<String>,
    pub row: usize,
    pub col: usize,
    pub width: usize,
    pub cursor: Option<CursorPos>,
}

/// The reserved rows at the top and bottom after a surface of `kind` took `height` rows:
/// toasts add to the top lane, drawers and attachment rows to the bottom lane (both
/// saturating), modals and corners reserve nothing.
pub open spec fn lanes_after(kind: SurfaceKind, top: nat, bottom: nat, height: nat) -> (usize, usize) {
    match lane_of(kind) {
        SurfaceLane::Top => (sat((top + height) as nat), sat(bottom)),
        SurfaceLane::Bottom => (sat(top), sat((bottom + height) as nat)),
        SurfaceLane::Floating => (sat(top), sat(bottom)),
    }
}

/// Adds a rendered surface's height to the lane its kind stacks in.
pub fn reserve_lane(kind: SurfaceKind, top: usize, bottom: usize, height: usize) -> (r: (usize, usize))
    ensures
        r == lanes_after(kind, top as nat, bottom as nat, height as nat),
{
    match kind {
        SurfaceKind::Toast => (top.saturating_add(height), bottom),
        SurfaceKind::AttachmentRow | SurfaceKind::Drawer => (top, bottom.saturating_add(height)),
        SurfaceKind::Modal | SurfaceKind::Corner => (top, bottom),
    }
}

/// The lines of a surface cut to `max_height` when it has one.
pub open spec fn clipped(lines: Seq<String>, max_height: Option<usize>) -> Seq<String> {
    match max_height {
        Some(m) => if lines.len() > m {
            lines.subrange(0, m as int)
        } else {
            lines
        },
        None => lines,
    }
}

/// Cuts a surface's lines to `max_height` when it has one, and drops its cursor when that
/// falls below the lines that remain.
pub fn clip_surface(lines: Vec<String>, max_height: Option<usize>, cursor: Option<CursorPos>) -> (r: (
    Vec<String>,
    Option<CursorPos>,
))
    ensures
        r.0@ == clipped(lines@, max_height),
        r.1 == (match cursor {
            Some(p) => if p.row >= clipped(lines@, max_height).len() {
                None
            } else {
                Some(p)
            },
            None => None,
        }),
{
    let mut lines = lines;
    match max_height {
        Some(m) => {
            if lines.len() > m {
                lines.truncate(m);
            }
        },
        None => {},
    }
    let cursor = match cursor {
        Some(p) => if p.row >= lines.len() {
            None
        } else {
            Some(p)
        },
        None => None,
    };
    (lines, cursor)
}

/// The rows the surfaces reach: the base's line count, or the bottom of a surface if lower.
pub open spec fn rows_needed(base_len: nat, surfaces: Seq<PlacedSurface>) -> nat
    decreases surfaces.len(),
{
    if surfaces.len() == 0 {
        base_len
    } else {
        let rest = rows_needed(base_len, surfaces.drop_last());
        let last = surfaces.last().row + surfaces.last().lines@.len();
        if last > rest {
            last as nat
        } else {
            rest
        }
    }
}

/// The working height (the most rows rendered so far, or the rows the surfaces reach if
/// more) and the first row of it that the screen of `height` rows shows.
pub fn surface_viewport(base_len: usize, surfaces: &Vec<PlacedSurface>, max_lines_rendered: usize, height: usize) -> (r: (
    usize,
    usize,
))
    requires
        forall|i: int| 0 <= i < surfaces@.len() ==> #[trigger] surfaces@[i].row + surfaces@[i].lines@.len() <= usize::MAX,
    ensures
        r.0 == (if max_lines_rendered >= rows_needed(base_len as nat, surfaces@) {
            max_lines_rendered as nat
        } else {
            rows_needed(base_len as nat, surfaces@)
        }),
        r.1 == (if r.0 >= height { r.0 - height } else { 0 }),
{
    let mut needed = base_len;
    let mut i: usize = 0;
    while i < surfaces.len()
        invariant
            i <= surfaces@.len(),
            needed as nat == rows_needed(base_len as nat, surfaces@.subrange(0, i as int)),
            forall|k: int| 0 <= k < surfaces@.len() ==> #[trigger] surfaces@[k].row + surfaces@[k].lines@.len() <= usize::MAX,
        decreases surfaces@.len() - i,
    {
        let bottom = surfaces[i].row + surfaces[i].lines.len();
        assert(surfaces@.subrange(0, i + 1 as int).drop_last() =~= surfaces@.subrange(0, i as int));
        if bottom > needed {
            needed = bottom;
        }
        i += 1;
    }
    assert(surfaces@.subrange(0, surfaces@.len() as int) =~= surfaces@);
    let working = if max_lines_rendered >= needed {
        max_lines_rendered
    } else {
        needed
    };
    let start = if working >= height {
        working - height
    } else {
        0
    };
    (working, start)
}

/// Where a surface puts the hardware cursor, if anywhere: its cursor when that lies inside its
/// lines and width and not on an image line, moved to the screen (the view starting at
/// `viewport_start`), unless it lands on an image line of the base.
pub open spec fn cursor_candidate(base: Seq<String>, s: PlacedSurface, viewport_start: nat) -> Option<CursorPos> {
    match s.cursor {
        None => None,
        Some(p) => {
            if p.row >= s.lines@.len() || p.col >= s.width || image_line(s.lines@[p.row as int]@) {
                None
            } else {
                let abs_row = sat((sat((viewport_start + s.row) as nat) + p.row) as nat);
                if abs_row < base.len() && image_line(base[abs_row as int]@) {
                    None
                } else {
                    Some(CursorPos { row: abs_row, col: sat((s.col + p.col) as nat) })
                }
            }
        },
    }
}

/// The hardware cursor over the surfaces: that of the last surface (the topmost) that places one.
pub open spec fn overlay_cursor_of(base: Seq<String>, surfaces: Seq<PlacedSurface>, viewport_start: nat) -> Option<
    CursorPos,
>
    decreases surfaces.len(),
{
    if surfaces.len() == 0 {
        None
    } else {
        match cursor_candidate(base, surfaces.last(), viewport_start) {
            Some(p) => Some(p),
            None => overlay_cursor_of(base, surfaces.drop_last(), viewport_start),
        }
    }
}

fn candidate(base: &Vec<String>, s: &PlacedSurface, viewport_start: usize) -> (r: Option<CursorPos>)
    ensures
        r == cursor_candidate(base@, *s, viewport_start as nat),
{
    match s.cursor {
        None => None,
        Some(p) => {
            if p.row >= s.lines.len() || p.col >= s.width {
                return None;
            }
            if is_image_line(s.lines[p.row].as_str()) {
                return None;
            }
            let abs_row = viewport_start.saturating_add(s.row).saturating_add(p.row);
            if abs_row < base.len() && is_image_line(base[abs_row].as_str()) {
                return None;
            }
            Some(CursorPos { row: abs_row, col: s.col.saturating_add(p.col) })
        },
    }
}

/// The hardware cursor of the composited frame: the last surface whose cursor qualifies wins.
pub fn overlay_cursor(base: &Vec<String>, surfaces: &Vec<PlacedSurface>, viewport_start: usize) -> (r: Option<
    CursorPos,
>)
    ensures
        r == overlay_cursor_of(base@, surfaces@, viewport_start as nat),
{
    let mut found: Option<CursorPos> = None;
    let mut i: usize = 0;
    while i < surfaces.len()
        invariant
            i <= surfaces@.len(),
            found == overlay_cursor_of(base@, surfaces@.subrange(0, i as int), viewport_start as nat),
        decreases surfaces@.len() - i,
    {
        assert(surfaces@.subrange(0, i + 1 as int).drop_last() =~= surfaces@.subrange(0, i as int));
        match candidate(base, &surfaces[i], viewport_start) {
            Some(p) => {
                found = Some(p);
            },
            None => {},
        }
        i += 1;
    }
    assert(surfaces@.subrange(0, surfaces@.len() as int) =~= surfaces@);
    found
}

} // verus!

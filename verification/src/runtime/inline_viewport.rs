//! Inline viewport state: tail anchoring and scroll-offset clamping.

use vstd::prelude::*;

use crate::cursor::CursorPos;

verus! {

/// Viewport over an inline transcript of `total_lines` lines shown in `terminal_height` rows,
/// scrolled `scroll_offset_from_tail` lines up from the tail.
#[derive(Debug, Clone, Copy)]
pub struct InlineViewportState {
    total_lines: usize,
    terminal_height: usize,
    scroll_offset_from_tail: usize,
}

/// Largest useful scroll offset: lines that do not fit on screen.
pub open spec fn max_offset(total: nat, height: nat) -> nat {
    let h = if height == 0 {
        1
    } else {
        height
    };
    if total > h {
        (total - h) as nat
    } else {
        0
    }
}

impl InlineViewportState {
    pub closed spec fn total(&self) -> nat {
        self.total_lines as nat
    }

    pub closed spec fn height(&self) -> nat {
        self.terminal_height as nat
    }

    pub closed spec fn offset(&self) -> nat {
        self.scroll_offset_from_tail as nat
    }

    /// The offset never exceeds the lines that do not fit.
    pub open spec fn wf(&self) -> bool {
        self.offset() <= max_offset(self.total(), self.height())
    }

    /// First transcript line shown.
    pub open spec fn top(&self) -> nat {
        if self.offset() < max_offset(self.total(), self.height()) {
            (max_offset(self.total(), self.height()) - self.offset()) as nat
        } else {
            0
        }
    }

    /// Empty transcript, zero height, following the tail.
    pub fn new() -> (r: Self)
        ensures
            r.wf(),
            r.total() == 0,
            r.height() == 0,
            r.offset() == 0,
    {
        InlineViewportState { total_lines: 0, terminal_height: 0, scroll_offset_from_tail: 0 }
    }

    fn clamp_scroll_offset(&mut self)
        ensures
            final(self).total() == old(self).total(),
            final(self).height() == old(self).height(),
            final(self).offset() == (if old(self).offset() <= max_offset(old(self).total(), old(self).height()) {
                old(self).offset()
            } else {
                max_offset(old(self).total(), old(self).height())
            }),
            final(self).wf(),
    {
        let height = if self.terminal_height == 0 {
            1
        } else {
            self.terminal_height
        };
        let max = if self.total_lines > height {
            self.total_lines - height
        } else {
            0
        };
        if self.scroll_offset_from_tail > max {
            self.scroll_offset_from_tail = max;
        }
    }

    /// Records a new terminal height; the offset is clamped to what still scrolls.
    pub fn note_terminal_height(&mut self, height: usize)
        ensures
            final(self).height() == height,
            final(self).total() == old(self).total(),
            final(self).offset() == (if old(self).offset() <= max_offset(old(self).total(), height as nat) {
                old(self).offset()
            } else {
                max_offset(old(self).total(), height as nat)
            }),
            final(self).wf(),
    {
        self.terminal_height = height;
        self.clamp_scroll_offset();
    }

    /// Records a new transcript length; the offset is clamped to what still scrolls.
    pub fn update_total_lines(&mut self, total_lines: usize)
        ensures
            final(self).total() == total_lines,
            final(self).height() == old(self).height(),
            final(self).offset() == (if old(self).offset() <= max_offset(total_lines as nat, old(self).height()) {
                old(self).offset()
            } else {
                max_offset(total_lines as nat, old(self).height())
            }),
            final(self).wf(),
    {
        self.total_lines = total_lines;
        self.clamp_scroll_offset();
    }

    /// First line of the viewport window.
    pub fn viewport_top(&self) -> (r: usize)
        ensures
            r == self.top(),
    {
        let height = if self.terminal_height == 0 {
            1
        } else {
            self.terminal_height
        };
        let max_top = if self.total_lines > height {
            self.total_lines - height
        } else {
            0
        };
        let off = if self.scroll_offset_from_tail < max_top {
            self.scroll_offset_from_tail
        } else {
            max_top
        };
        max_top - off
    }

    /// The cursor when it lies inside the viewport window, else `None`.
    pub fn clamp_cursor(&self, cursor: Option<CursorPos>) -> (r: Option<CursorPos>)
        ensures
            r == (match cursor {
                Some(pos) => if pos.row < self.top() || pos.row >= self.total() {
                    None
                } else {
                    Some(pos)
                },
                None => None,
            }),
    {
        match cursor {
            None => None,
            Some(pos) => {
                let top = self.viewport_top();
                if pos.row < top || pos.row >= self.total_lines {
                    None
                } else {
                    Some(pos)
                }
            },
        }
    }

    /// Scrolls `offset` lines up from the tail (clamped).
    pub fn set_scroll_offset_from_tail(&mut self, offset: usize)
        ensures
            final(self).total() == old(self).total(),
            final(self).height() == old(self).height(),
            final(self).offset() == (if offset <= max_offset(old(self).total(), old(self).height()) {
                offset as nat
            } else {
                max_offset(old(self).total(), old(self).height())
            }),
            final(self).wf(),
    {
        self.scroll_offset_from_tail = offset;
        self.clamp_scroll_offset();
    }

    pub fn scroll_offset_from_tail(&self) -> (r: usize)
        ensures
            r == self.offset(),
    {
        self.scroll_offset_from_tail
    }

    pub fn is_following_tail(&self) -> (r: bool)
        ensures
            r == (self.offset() == 0),
    {
        self.scroll_offset_from_tail == 0
    }
}

impl Default for InlineViewportState {
    fn default() -> (r: Self)
        ensures
            r.wf(),
            r.total() == 0,
            r.height() == 0,
            r.offset() == 0,
    {
        InlineViewportState::new()
    }
}

} // verus!

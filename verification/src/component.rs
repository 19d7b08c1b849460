//! The component interface that widgets and user code implement.

use vstd::prelude::*;

use crate::cursor::CursorPos;
use crate::keys::{parse_input_events, InputEvent};

verus! {

/// The text of each string.
pub open spec fn texts(v: Seq<String>) -> Seq<Seq<char>> {
    v.map_values(|s: String| s@)
}

/// A retained-mode UI element: renders itself to lines of ANSI text for a given width.
pub trait Component {
    /// Whether `lines` is what a render at `width` gives in this state. A component that does
    /// not say allows any lines.
    open spec fn renders(&self, width: usize, lines: Seq<Seq<char>>) -> bool {
        true
    }

    /// Lines to display at `width` cells.
    fn render(&mut self, width: usize) -> (r: Vec<String>)
        ensures
            old(self).renders(width, texts(r@)),
    ;

    /// Where the hardware cursor belongs after the last render, if anywhere.
    fn cursor_pos(&self) -> Option<CursorPos> {
        None
    }

    /// Handles a structured input event.
    fn handle_event(&mut self, event: &InputEvent) {
    }

    /// Handles raw terminal input: by default, each parsed event in turn.
    fn handle_input(&mut self, data: &str) {
        let events = parse_input_events(data, false);
        let mut i: usize = 0;
        while i < events.len()
            invariant
                i <= events@.len(),
            decreases events@.len() - i,
        {
            self.handle_event(&events[i]);
            i += 1;
        }
    }

    /// Drops any cached rendering.
    fn invalidate(&mut self) {
    }

    /// Whether key releases are to be handed to this component; by default they are not.
    fn wants_key_release(&self) -> bool {
        false
    }

    /// The component's focus interface, for components that can hold focus.
    fn as_focusable(&mut self) -> Option<&mut dyn Focusable> {
        None
    }
}

/// Components that can hold keyboard focus.
pub trait Focusable {
    fn set_focused(&mut self, focused: bool);

    fn is_focused(&self) -> bool;
}

} // verus!

//! Vertical spacer.

use vstd::prelude::*;

use crate::component::Component;

verus! {

/// Renders a fixed number of empty lines.
pub struct Spacer {
    lines: usize,
}

impl Spacer {
    pub closed spec fn line_count(&self) -> nat {
        self.lines as nat
    }

    /// One empty line.
    pub fn new() -> (r: Self)
        ensures
            r.line_count() == 1,
    {
        Spacer { lines: 1 }
    }

    pub fn with_lines(lines: usize) -> (r: Self)
        ensures
            r.line_count() == lines,
    {
        Spacer { lines }
    }

    pub fn set_lines(&mut self, lines: usize)
        ensures
            final(self).line_count() == lines,
    {
        self.lines = lines;
    }
}

impl Default for Spacer {
    fn default() -> (r: Self)
        ensures
            r.line_count() == 1,
    {
        Spacer::new()
    }
}

impl Component for Spacer {
    fn render(&mut self, width: usize) -> (r: Vec<String>)
        ensures
            r@.len() == old(self).line_count(),
            forall|i: int| 0 <= i < r@.len() ==> (#[trigger] r@[i])@ == Seq::<char>::empty(),
            final(self).line_count() == old(self).line_count(),
    {
        let mut out: Vec<String> = Vec::new();
        let mut i: usize = 0;
        while i < self.lines
            invariant
                i <= self.lines,
                out@.len() == i,
                forall|k: int| 0 <= k < out@.len() ==> (#[trigger] out@[k])@ == Seq::<char>::empty(),
            decreases self.lines - i,
        {
            out.push(String::new());
            i += 1;
        }
        out
    }
}

} // verus!

//! What a loading indicator shows: a spinner frame and a message on one padded line below a
//! blank line. Advancing the frame over time is left to whoever drives the indicator.

use vstd::prelude::*;

use crate::chars::{chars_of, extend_chars, string_of};
use crate::component::Component;
use crate::render::strings_are;
use crate::style::StyleFn;
use crate::widgets::text::{text_lines, Text};

verus! {

/// The spinner's frames, in order.
pub open spec fn spinner_frames() -> Seq<char> {
    seq!['⠋', '⠙', '⠹', '⠸', '⠼', '⠴', '⠦', '⠧', '⠇', '⠏']
}

/// The frame shown after `index` ticks.
pub fn spinner_frame(index: usize) -> (r: String)
    ensures
        r@ == seq![spinner_frames()[(index % 10) as int]],
{
    let frames = ['⠋', '⠙', '⠹', '⠸', '⠼', '⠴', '⠦', '⠧', '⠇', '⠏'];
    assert(frames@ =~= spinner_frames());
    let c = frames[index % 10];
    let r = string_of(&[c]);
    assert(r@ =~= seq![spinner_frames()[(index % 10) as int]]);
    r
}

pub open spec fn default_message() -> Seq<char> {
    seq!['L', 'o', 'a', 'd', 'i', 'n', 'g', '.', '.', '.']
}

/// The lines of an indicator showing `label`: a blank line, then the label wrapped with one
/// cell of padding on each side.
pub open spec fn spinner_lines(label: Seq<char>, width: nat) -> Seq<Seq<char>> {
    seq![Seq::<char>::empty()] + text_lines(label, width, 1, 0)
}

/// A spinner frame followed by a message, styled by the two user styles.
pub struct SpinnerLabel {
    spinner_color: Box<dyn StyleFn>,
    message_color: Box<dyn StyleFn>,
    message: String,
    frame: usize,
    text: Text,
}

impl SpinnerLabel {
    pub closed spec fn message_view(&self) -> Seq<char> {
        self.message@
    }

    pub closed spec fn frame_view(&self) -> nat {
        self.frame as nat
    }

    /// A label at the first frame; the message defaults to `Loading...`.
    pub fn new(spinner_color: Box<dyn StyleFn>, message_color: Box<dyn StyleFn>, message: Option<String>) -> (r: Self)
        ensures
            r.message_view() == (match message {
                Some(m) => m@,
                None => default_message(),
            }),
            r.frame_view() == 0,
    {
        let message = match message {
            Some(m) => m,
            None => {
                let d = string_of(&['L', 'o', 'a', 'd', 'i', 'n', 'g', '.', '.', '.']);
                assert(d@ =~= default_message());
                d
            },
        };
        SpinnerLabel { spinner_color, message_color, message, frame: 0, text: Text::with_padding("", 1, 0) }
    }

    pub fn set_message(&mut self, message: &str)
        ensures
            final(self).message_view() == message@,
            final(self).frame_view() == old(self).frame_view(),
    {
        self.message = message.to_owned();
    }

    /// Shows the frame after `frame` ticks.
    pub fn set_frame(&mut self, frame: usize)
        ensures
            final(self).message_view() == old(self).message_view(),
            final(self).frame_view() == frame,
    {
        self.frame = frame;
    }

    /// The lines for an already styled spinner frame and message (see `spinner_lines`).
    pub fn render_styled(&mut self, spinner: &str, message: &str, width: usize) -> (r: Vec<String>)
        ensures
            strings_are(r@, spinner_lines(spinner@ + seq![' '] + message@, width as nat)),
            final(self).message_view() == old(self).message_view(),
            final(self).frame_view() == old(self).frame_view(),
    {
        let mut label = chars_of(spinner);
        label.push(' ');
        let m = chars_of(message);
        extend_chars(&mut label, m.as_slice());
        let label_text = string_of(label.as_slice());
        let ghost want = spinner@ + seq![' '] + message@;
        assert(label_text@ =~= want);
        self.text = Text::with_padding(label_text.as_str(), 1, 0);
        let body = self.text.render(width);
        let ghost tl = text_lines(want, width as nat, 1, 0);
        assert(strings_are(body@, tl));
        let mut lines: Vec<String> = Vec::new();
        lines.push(String::new());
        let mut i: usize = 0;
        while i < body.len()
            invariant
                i <= body@.len(),
                lines@.len() == 1 + i,
                lines@[0]@ == Seq::<char>::empty(),
                forall|k: int| 0 <= k < i ==> (#[trigger] lines@[1 + k])@ == body@[k]@,
            decreases body@.len() - i,
        {
            lines.push(body[i].clone());
            i += 1;
        }
        proof {
            let sl = spinner_lines(want, width as nat);
            assert(sl.len() == 1 + tl.len());
            assert forall|k: int| 0 <= k < lines@.len() implies (#[trigger] lines@[k])@ == sl[k] by {
                if k > 0 {
                    assert(lines@[1 + (k - 1)]@ == body@[k - 1]@);
                    assert(sl[k] == tl[k - 1]);
                }
            }
        }
        lines
    }
}

impl Component for SpinnerLabel {
    /// The current frame and the message, each through its style (see `render_styled`).
    fn render(&mut self, width: usize) -> (r: Vec<String>)
        ensures
            r@.len() >= 1,
            r@[0]@ == Seq::<char>::empty(),
    {
        let frame = spinner_frame(self.frame);
        let spinner = self.spinner_color.style(frame.as_str());
        let message = self.message_color.style(self.message.as_str());
        self.render_styled(spinner.as_str(), message.as_str(), width)
    }

    fn invalidate(&mut self) {
        self.text.invalidate();
    }
}

} // verus!

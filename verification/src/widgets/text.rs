//! Multi-line text with padding, word wrapping and an optional background.

use vstd::prelude::*;

use crate::chars::{chars_of, extend_chars, repeat_char, spaces, string_of};
use crate::component::{texts, Component};
use crate::render::{
    apply_background_to_line, blank_text, copy_strings, expand_tabs, expand_tabs_chars, is_blank,
    pad_chars_to, pad_line, strings_are, Frame,
};
use crate::style::{styled_by, StyleFn};
use crate::text::{wrap_text, wrap_text_with_ansi};

verus! {

/// Cells left for content between the side paddings: `width - 2 * padding_x`, at least 1.
pub open spec fn content_width(width: nat, padding_x: nat) -> nat {
    if width > 2 * padding_x {
        (width - 2 * padding_x) as nat
    } else {
        1
    }
}

pub fn content_width_of(width: usize, padding_x: usize) -> (r: usize)
    ensures
        r == content_width(width as nat, padding_x as nat),
{
    match padding_x.checked_mul(2) {
        Some(both) => if width > both {
            width - both
        } else {
            1
        },
        None => 1,
    }
}

/// A wrapped line with the side paddings, padded to `width`.
pub open spec fn framed_line(line: Seq<char>, width: nat, padding_x: nat) -> Seq<char> {
    pad_line(spaces(padding_x) + line + spaces(padding_x), width)
}

/// The padded content lines of a text.
pub open spec fn text_body(t: Seq<char>, width: nat, padding_x: nat) -> Seq<Seq<char>> {
    wrap_text(expand_tabs(t), content_width(width, padding_x)).map_values(
        |line: Seq<char>| framed_line(line, width, padding_x),
    )
}

/// `n` lines of `width` spaces.
pub open spec fn blank_lines(n: nat, width: nat) -> Seq<Seq<char>> {
    Seq::new(n, |_i: int| spaces(width))
}

/// What a text renders to without a background: nothing for blank text; otherwise
/// `padding_y` blank lines, the wrapped and padded content, and `padding_y` blank lines.
pub open spec fn text_lines(t: Seq<char>, width: nat, padding_x: nat, padding_y: nat) -> Seq<
    Seq<char>,
> {
    if is_blank(t) {
        Seq::empty()
    } else {
        blank_lines(padding_y, width) + text_body(t, width, padding_x) + blank_lines(
            padding_y,
            width,
        )
    }
}

struct TextCache {
    text: String,
    width: usize,
    frame: Frame,
}

/// Displays text wrapped to the available width, with padding on every side.
pub struct Text {
    text: String,
    padding_x: usize,
    padding_y: usize,
    custom_bg_fn: Option<Box<dyn StyleFn>>,
    cache: Option<TextCache>,
}

impl Text {
    #[verifier::type_invariant]
    spec fn cache_matches(self) -> bool {
        match self.cache {
            Some(c) => {
                let expected = text_lines(
                    c.text@,
                    c.width as nat,
                    self.padding_x as nat,
                    self.padding_y as nat,
                );
                &&& c.frame.lines_view().len() == expected.len()
                &&& strings_are(c.frame.lines_view(), expected.map_values(|l: Seq<char>| self.bg_styled(l)))
            },
            None => true,
        }
    }

    pub closed spec fn text_view(&self) -> Seq<char> {
        self.text@
    }

    pub closed spec fn padding_x_view(&self) -> nat {
        self.padding_x as nat
    }

    pub closed spec fn padding_y_view(&self) -> nat {
        self.padding_y as nat
    }

    pub closed spec fn has_bg(&self) -> bool {
        self.custom_bg_fn is Some
    }

    /// What the background style makes of a line: the line itself when there is none.
    pub closed spec fn bg_styled(&self, line: Seq<char>) -> Seq<char> {
        match self.custom_bg_fn {
            Some(bg) => bg.styled(line),
            None => line,
        }
    }

    /// Text with one cell of padding on each side.
    pub fn new(text: &str) -> (r: Self)
        ensures
            r.text_view() == text@,
            r.padding_x_view() == 1,
            r.padding_y_view() == 1,
            !r.has_bg(),
            forall|t: Seq<char>| #[trigger] r.bg_styled(t) == t,
    {
        Text::with_padding(text, 1, 1)
    }

    pub fn with_padding(text: &str, padding_x: usize, padding_y: usize) -> (r: Self)
        ensures
            r.text_view() == text@,
            r.padding_x_view() == padding_x,
            r.padding_y_view() == padding_y,
            !r.has_bg(),
            forall|t: Seq<char>| #[trigger] r.bg_styled(t) == t,
    {
        Text {
            text: text.to_owned(),
            padding_x,
            padding_y,
            custom_bg_fn: None,
            cache: None,
        }
    }

    pub fn set_text(&mut self, text: &str)
        ensures
            final(self).text_view() == text@,
            final(self).padding_x_view() == old(self).padding_x_view(),
            final(self).padding_y_view() == old(self).padding_y_view(),
            final(self).has_bg() == old(self).has_bg(),
            forall|t: Seq<char>| #[trigger] final(self).bg_styled(t) == old(self).bg_styled(t),
    {
        self.cache = None;
        self.text = text.to_owned();
    }

    pub fn set_padding(&mut self, padding_x: usize, padding_y: usize)
        ensures
            final(self).text_view() == old(self).text_view(),
            final(self).padding_x_view() == padding_x,
            final(self).padding_y_view() == padding_y,
            final(self).has_bg() == old(self).has_bg(),
            forall|t: Seq<char>| #[trigger] final(self).bg_styled(t) == old(self).bg_styled(t),
    {
        self.cache = None;
        self.padding_x = padding_x;
        self.padding_y = padding_y;
    }

    /// Sets (or removes) the function that styles every rendered line.
    pub fn set_custom_bg_fn(&mut self, custom_bg_fn: Option<Box<dyn StyleFn>>)
        ensures
            final(self).text_view() == old(self).text_view(),
            final(self).padding_x_view() == old(self).padding_x_view(),
            final(self).padding_y_view() == old(self).padding_y_view(),
            final(self).has_bg() == custom_bg_fn is Some,
            forall|t: Seq<char>| #[trigger] final(self).bg_styled(t) == styled_by(custom_bg_fn, t),
    {
        self.cache = None;
        self.custom_bg_fn = custom_bg_fn;
    }

    /// Renders to a frame, reusing the previous frame when neither the text nor the width
    /// changed. Without a background the lines are exactly `text_lines`; with one, each of
    /// those lines is handed to the background function.
    pub fn render_frame(&mut self, width: usize) -> (r: Frame)
        ensures
            r.lines_view().len() == text_lines(
                old(self).text_view(),
                width as nat,
                old(self).padding_x_view(),
                old(self).padding_y_view(),
            ).len(),
            !old(self).has_bg() ==> strings_are(
                r.lines_view(),
                text_lines(
                    old(self).text_view(),
                    width as nat,
                    old(self).padding_x_view(),
                    old(self).padding_y_view(),
                ),
            ),
            strings_are(
                r.lines_view(),
                text_lines(
                    old(self).text_view(),
                    width as nat,
                    old(self).padding_x_view(),
                    old(self).padding_y_view(),
                ).map_values(|l: Seq<char>| old(self).bg_styled(l)),
            ),
            final(self).text_view() == old(self).text_view(),
            final(self).padding_x_view() == old(self).padding_x_view(),
            final(self).padding_y_view() == old(self).padding_y_view(),
            final(self).has_bg() == old(self).has_bg(),
    {
        proof {
            use_type_invariant(&*self);
        }
        match &self.cache {
            Some(c) => {
                if c.text == self.text && c.width == width {
                    return c.frame.duplicate();
                }
            },
            None => {},
        }
        let lines = self.build_lines(width);
        let frame = Frame::new(copy_strings(lines.as_slice()));
        self.cache = Some(TextCache { text: self.text.clone(), width, frame: Frame::new(lines) });
        frame
    }

    fn build_lines(&self, width: usize) -> (r: Vec<String>)
        ensures
            r@.len() == text_lines(
                self.text@,
                width as nat,
                self.padding_x as nat,
                self.padding_y as nat,
            ).len(),
            strings_are(
                r@,
                text_lines(self.text@, width as nat, self.padding_x as nat, self.padding_y as nat).map_values(
                    |l: Seq<char>| self.bg_styled(l),
                ),
            ),
    {
        if blank_text(self.text.as_str()) {
            return Vec::new();
        }
        let ghost expected = text_lines(
            self.text@,
            width as nat,
            self.padding_x as nat,
            self.padding_y as nat,
        );
        let ghost body = text_body(self.text@, width as nat, self.padding_x as nat);
        let normalized = expand_tabs_chars(chars_of(self.text.as_str()).as_slice());
        let cw = content_width_of(width, self.padding_x);
        let wrapped = wrap_text_with_ansi(string_of(normalized.as_slice()).as_str(), cw);
        let margin = repeat_char(' ', self.padding_x);
        assert(margin@ =~= spaces(self.padding_x as nat));
        let mut content: Vec<String> = Vec::new();
        let mut i: usize = 0;
        while i < wrapped.len()
            invariant
                i <= wrapped@.len(),
                wrapped@.len() == body.len(),
                body == text_body(self.text@, width as nat, self.padding_x as nat),
                forall|k: int| 0 <= k < wrapped@.len() ==> #[trigger] wrapped@[k]@ == wrap_text(expand_tabs(self.text@), cw as nat)[k],
                cw == crate::widgets::text::content_width(width as nat, self.padding_x as nat),
                margin@ == spaces(self.padding_x as nat),
                normalized@ == expand_tabs(self.text@),
                content@.len() == i,
                forall|k: int| 0 <= k < i ==> #[trigger] content@[k]@ == self.bg_styled(body[k]),
            decreases wrapped@.len() - i,
        {
            let mut v = margin.clone();
            extend_chars(&mut v, chars_of(wrapped[i].as_str()).as_slice());
            extend_chars(&mut v, margin.as_slice());
            let ghost joined = v@;
            assert(joined == spaces(self.padding_x as nat) + wrapped@[i as int]@ + spaces(self.padding_x as nat));
            let ghost before = content@;
            match &self.custom_bg_fn {
                Some(bg) => {
                    assert(pad_line(joined, width as nat) == body[i as int]);
                    let line = apply_background_to_line(string_of(v.as_slice()).as_str(), width, bg);
                    assert(line@ == self.bg_styled(body[i as int]));
                    content.push(line);
                },
                None => {
                    pad_chars_to(&mut v, width);
                    assert(v@ == body[i as int]);
                    content.push(string_of(v.as_slice()));
                },
            }
            assert forall|k: int| 0 <= k < i + 1 implies #[trigger] content@[k]@ == self.bg_styled(body[k]) by {
                if k < i {
                    assert(content@[k] == before[k]);
                }
            }
            i += 1;
        }
        let empty_line = string_of(repeat_char(' ', width).as_slice());
        assert(empty_line@ =~= spaces(width as nat));
        let mut empty_lines: Vec<String> = Vec::new();
        let mut j: usize = 0;
        while j < self.padding_y
            invariant
                j <= self.padding_y,
                empty_lines@.len() == j,
                empty_line@ == spaces(width as nat),
                forall|k: int| 0 <= k < j ==> #[trigger] empty_lines@[k]@ == self.bg_styled(spaces(width as nat)),
            decreases self.padding_y - j,
        {
            match &self.custom_bg_fn {
                Some(bg) => {
                    empty_lines.push(bg.style(empty_line.as_str()));
                },
                None => {
                    empty_lines.push(empty_line.clone());
                },
            }
            j += 1;
        }
        let mut result = copy_strings(empty_lines.as_slice());
        let ghost top = result@;
        let mut k: usize = 0;
        while k < content.len()
            invariant
                k <= content@.len(),
                result@ == top + content@.subrange(0, k as int),
            decreases content@.len() - k,
        {
            result.push(content[k].clone());
            assert(result@ =~= top + content@.subrange(0, k + 1 as int));
            k += 1;
        }
        let ghost middle = result@;
        let mut m: usize = 0;
        while m < empty_lines.len()
            invariant
                m <= empty_lines@.len(),
                result@ == middle + empty_lines@.subrange(0, m as int),
            decreases empty_lines@.len() - m,
        {
            result.push(empty_lines[m].clone());
            assert(result@ =~= middle + empty_lines@.subrange(0, m + 1 as int));
            m += 1;
        }
        proof {
            assert(content@.subrange(0, content@.len() as int) =~= content@);
            assert(empty_lines@.subrange(0, empty_lines@.len() as int) =~= empty_lines@);
            assert(result@ =~= empty_lines@ + content@ + empty_lines@);
            {
                let blanks = blank_lines(self.padding_y as nat, width as nat);
                assert forall|q: int| 0 <= q < result@.len() implies #[trigger] result@[q]@ == self.bg_styled(expected[q]) by {
                    if q < empty_lines@.len() {
                        assert(expected[q] == blanks[q]);
                    } else if q < empty_lines@.len() + content@.len() {
                        assert(expected[q] == body[q - empty_lines@.len()]);
                    } else {
                        assert(expected[q] == blanks[q - empty_lines@.len() - content@.len()]);
                    }
                }
            }
        }
        result
    }
}

impl Component for Text {
    /// The wrapped, padded lines, each handed to the background function when there is one.
    open spec fn renders(&self, width: usize, lines: Seq<Seq<char>>) -> bool {
        lines == text_lines(self.text_view(), width as nat, self.padding_x_view(), self.padding_y_view()).map_values(
            |l: Seq<char>| self.bg_styled(l),
        )
    }

    fn render(&mut self, width: usize) -> (r: Vec<String>)
        ensures
            r@.len() == text_lines(
                old(self).text_view(),
                width as nat,
                old(self).padding_x_view(),
                old(self).padding_y_view(),
            ).len(),
            !old(self).has_bg() ==> strings_are(
                r@,
                text_lines(
                    old(self).text_view(),
                    width as nat,
                    old(self).padding_x_view(),
                    old(self).padding_y_view(),
                ),
            ),
            strings_are(
                r@,
                text_lines(
                    old(self).text_view(),
                    width as nat,
                    old(self).padding_x_view(),
                    old(self).padding_y_view(),
                ).map_values(|l: Seq<char>| old(self).bg_styled(l)),
            ),
    {
        let r = self.render_frame(width).into_strings();
        proof {
            let expected = text_lines(
                old(self).text_view(),
                width as nat,
                old(self).padding_x_view(),
                old(self).padding_y_view(),
            ).map_values(|l: Seq<char>| old(self).bg_styled(l));
            assert(texts(r@) =~= expected);
        }
        r
    }

    fn invalidate(&mut self) {
        self.cache = None;
    }
}

} // verus!

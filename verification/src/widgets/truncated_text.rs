//! A single line of text cut to the available width with an ellipsis.

use vstd::prelude::*;

use crate::chars::{chars_of, extend_chars, repeat_char, slice_chars, spaces, string_of};
use crate::component::Component;
use crate::render::{pad_chars_to, pad_line, strings_are};
use crate::text::{text_width, truncate_spec, truncate_to_width};
use crate::widgets::text::{blank_lines, content_width, content_width_of};

verus! {

/// Index of the first newline at or after `i`, or the length of `s` when there is none.
pub open spec fn newline_from(s: Seq<char>, i: int) -> int
    decreases s.len() - i,
{
    if i < 0 || i >= s.len() {
        s.len() as int
    } else if s[i] == '\n' {
        i
    } else {
        newline_from(s, i + 1)
    }
}

/// The text before the first newline.
pub open spec fn first_line(s: Seq<char>) -> Seq<char> {
    s.subrange(0, newline_from(s, 0))
}

pub open spec fn ellipsis() -> Seq<char> {
    seq!['.', '.', '.']
}

/// The single content line: the first line cut to the content width with `...`, between
/// the side paddings, padded to `width`.
pub open spec fn truncated_line(t: Seq<char>, width: nat, padding_x: nat) -> Seq<char> {
    pad_line(
        spaces(padding_x) + truncate_spec(
            first_line(t),
            content_width(width, padding_x),
            ellipsis(),
            false,
        ) + spaces(padding_x),
        width,
    )
}

/// `padding_y` blank lines, the content line, `padding_y` blank lines.
pub open spec fn truncated_lines(t: Seq<char>, width: nat, padding_x: nat, padding_y: nat) -> Seq<
    Seq<char>,
> {
    blank_lines(padding_y, width) + seq![truncated_line(t, width, padding_x)] + blank_lines(
        padding_y,
        width,
    )
}

fn first_newline(v: &[char]) -> (r: usize)
    ensures
        r as int == newline_from(v@, 0),
        r <= v@.len(),
{
    let mut i: usize = 0;
    while i < v.len()
        invariant
            i <= v@.len(),
            newline_from(v@, 0) == newline_from(v@, i as int),
        decreases v@.len() - i,
    {
        if v[i] == '\n' {
            return i;
        }
        i += 1;
    }
    i
}

/// Text shown on one line, truncated with `...` when it does not fit.
pub struct TruncatedText {
    text: String,
    padding_x: usize,
    padding_y: usize,
}

impl TruncatedText {
    pub closed spec fn text_view(&self) -> Seq<char> {
        self.text@
    }

    pub closed spec fn padding_x_view(&self) -> nat {
        self.padding_x as nat
    }

    pub closed spec fn padding_y_view(&self) -> nat {
        self.padding_y as nat
    }

    pub fn new(text: &str, padding_x: usize, padding_y: usize) -> (r: Self)
        ensures
            r.text_view() == text@,
            r.padding_x_view() == padding_x,
            r.padding_y_view() == padding_y,
    {
        TruncatedText { text: text.to_owned(), padding_x, padding_y }
    }
}

impl Component for TruncatedText {
    fn render(&mut self, width: usize) -> (r: Vec<String>)
        ensures
            text_width(first_line(old(self).text_view())) <= usize::MAX ==> strings_are(
                r@,
                truncated_lines(
                    old(self).text_view(),
                    width as nat,
                    old(self).padding_x_view(),
                    old(self).padding_y_view(),
                ),
            ),
            r@.len() == 2 * old(self).padding_y_view() + 1,
    {
        let ghost expected = truncated_lines(
            self.text@,
            width as nat,
            self.padding_x as nat,
            self.padding_y as nat,
        );
        let empty_line = string_of(repeat_char(' ', width).as_slice());
        assert(empty_line@ =~= spaces(width as nat));
        let mut result: Vec<String> = Vec::new();
        let mut i: usize = 0;
        while i < self.padding_y
            invariant
                i <= self.padding_y,
                result@.len() == i,
                empty_line@ == spaces(width as nat),
                forall|k: int| 0 <= k < i ==> #[trigger] result@[k]@ == spaces(width as nat),
            decreases self.padding_y - i,
        {
            result.push(empty_line.clone());
            i += 1;
        }
        let available = content_width_of(width, self.padding_x);
        let v = chars_of(self.text.as_str());
        let end = first_newline(v.as_slice());
        let single = string_of(slice_chars(v.as_slice(), 0, end).as_slice());
        let dots = string_of(&['.', '.', '.']);
        assert(dots@ =~= ellipsis());
        let display = truncate_to_width(single.as_str(), available, dots.as_str(), false);
        let margin = repeat_char(' ', self.padding_x);
        let mut line = margin.clone();
        extend_chars(&mut line, chars_of(display.as_str()).as_slice());
        extend_chars(&mut line, margin.as_slice());
        pad_chars_to(&mut line, width);
        proof {
            assert(margin@ =~= spaces(self.padding_x as nat));
            if text_width(first_line(self.text@)) <= usize::MAX {
                assert(line@ == truncated_line(self.text@, width as nat, self.padding_x as nat));
            }
        }
        result.push(string_of(line.as_slice()));
        let mut j: usize = 0;
        while j < self.padding_y
            invariant
                j <= self.padding_y,
                result@.len() == self.padding_y + 1 + j,
                empty_line@ == spaces(width as nat),
                forall|k: int| 0 <= k < self.padding_y ==> #[trigger] result@[k]@ == spaces(width as nat),
                forall|k: int| self.padding_y + 1 <= k < result@.len() ==> #[trigger] result@[k]@ == spaces(width as nat),
                text_width(first_line(self.text@)) <= usize::MAX ==> result@[self.padding_y as int]@ == truncated_line(self.text@, width as nat, self.padding_x as nat),
            decreases self.padding_y - j,
        {
            result.push(empty_line.clone());
            j += 1;
        }
        proof {
            if text_width(first_line(self.text@)) <= usize::MAX {
                assert forall|q: int| 0 <= q < result@.len() implies #[trigger] result@[q]@ == expected[q] by {
                    let py = self.padding_y as int;
                    if q < py {
                    } else if q == py {
                    } else {
                        assert(expected[q] == blank_lines(self.padding_y as nat, width as nat)[q - py - 1]);
                    }
                }
            }
        }
        result
    }
}

} // verus!

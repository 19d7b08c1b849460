//! Line-level rendering helpers shared by the widgets: padding to a width, backgrounds,
//! blank-text checks, tab expansion and the `Frame` of rendered lines.

use vstd::prelude::*;

use crate::chars::{chars_of, extend_chars, repeat_char, spaces, string_of};
use crate::style::StyleFn;
use crate::text::{is_space_char, is_whitespace_char, measure_chars, sat, text_width, ScanMode};

verus! {

/// The strings of `v` hold exactly the lines `s`.
pub open spec fn strings_are(v: Seq<String>, s: Seq<Seq<char>>) -> bool {
    v.len() == s.len() && forall|i: int| 0 <= i < v.len() ==> #[trigger] v[i]@ == s[i]
}

/// `s` followed by spaces up to `width` cells (unchanged when already that wide).
pub open spec fn pad_line(s: Seq<char>, width: nat) -> Seq<char> {
    if text_width(s) < width {
        s + spaces((width - text_width(s)) as nat)
    } else {
        s
    }
}

/// Appends spaces to `v` until it is `width` cells wide.
pub fn pad_chars_to(v: &mut Vec<char>, width: usize)
    ensures
        final(v)@ == pad_line(old(v)@, width as nat),
{
    let (w, _m) = measure_chars(v.as_slice(), ScanMode::Text);
    assert(w == sat(text_width(old(v)@)));
    if w < width {
        let fill = repeat_char(' ', width - w);
        assert(fill@ =~= spaces((width - text_width(old(v)@)) as nat));
        extend_chars(v, fill.as_slice());
    }
}

/// `line` padded with spaces to `width` cells.
pub fn pad_to_width(line: &str, width: usize) -> (r: String)
    ensures
        r@ == pad_line(line@, width as nat),
{
    let mut v = chars_of(line);
    pad_chars_to(&mut v, width);
    string_of(v.as_slice())
}

/// Pads `line` to `width` cells and applies the background style `bg` to the result.
pub fn apply_background_to_line(line: &str, width: usize, bg: &Box<dyn StyleFn>) -> (r: String)
    ensures
        r@ == bg.styled(pad_line(line@, width as nat)),
{
    let padded = pad_to_width(line, width);
    bg.style(padded.as_str())
}

/// Every character of `s` is whitespace (so `s.trim()` is empty).
pub open spec fn is_blank(s: Seq<char>) -> bool {
    forall|i: int| 0 <= i < s.len() ==> is_space_char(#[trigger] s[i])
}

pub fn blank_text(s: &str) -> (r: bool)
    ensures
        r == is_blank(s@),
{
    let v = chars_of(s);
    let mut i: usize = 0;
    while i < v.len()
        invariant
            v@ == s@,
            i <= v@.len(),
            forall|j: int| 0 <= j < i ==> is_space_char(#[trigger] v@[j]),
        decreases v@.len() - i,
    {
        if !is_whitespace_char(v[i]) {
            return false;
        }
        i += 1;
    }
    true
}

/// A tab replaced by three spaces.
pub open spec fn tab_piece(c: char) -> Seq<char> {
    if c == '\t' {
        seq![' ', ' ', ' ']
    } else {
        seq![c]
    }
}

/// `s` with every tab replaced by three spaces.
pub open spec fn expand_tabs(s: Seq<char>) -> Seq<char> {
    s.map_values(|c: char| tab_piece(c)).flatten()
}

pub fn expand_tabs_chars(v: &[char]) -> (r: Vec<char>)
    ensures
        r@ == expand_tabs(v@),
{
    let mut out: Vec<char> = Vec::new();
    let mut i: usize = 0;
    assert(v@.subrange(0, 0).map_values(|c: char| tab_piece(c)) =~= Seq::<Seq<char>>::empty());
    while i < v.len()
        invariant
            i <= v@.len(),
            out@ == v@.subrange(0, i as int).map_values(|c: char| tab_piece(c)).flatten(),
        decreases v@.len() - i,
    {
        let c = v[i];
        let ghost pre = v@.subrange(0, i as int).map_values(|c: char| tab_piece(c));
        if c == '\t' {
            out.push(' ');
            out.push(' ');
            out.push(' ');
        } else {
            out.push(c);
        }
        proof {
            assert(v@.subrange(0, i + 1 as int).map_values(|c: char| tab_piece(c)) =~= pre.push(
                tab_piece(c),
            ));
            pre.lemma_flatten_push(tab_piece(c));
            assert(out@ =~= pre.flatten() + tab_piece(c));
        }
        i += 1;
    }
    assert(v@.subrange(0, v@.len() as int) =~= v@);
    out
}

/// Lines rendered by a component.
pub struct Frame {
    lines: Vec<String>,
}

impl Frame {
    pub closed spec fn lines_view(&self) -> Seq<String> {
        self.lines@
    }

    pub fn new(lines: Vec<String>) -> (r: Frame)
        ensures
            r.lines_view() == lines@,
    {
        Frame { lines }
    }

    pub fn into_strings(self) -> (r: Vec<String>)
        ensures
            r@ == self.lines_view(),
    {
        self.lines
    }

    pub fn duplicate(&self) -> (r: Frame)
        ensures
            r.lines_view() == self.lines_view(),
    {
        Frame { lines: copy_strings(self.lines.as_slice()) }
    }
}

/// A copy of every string of `v`, in order.
pub fn copy_strings(v: &[String]) -> (r: Vec<String>)
    ensures
        r@ == v@,
{
    let mut out: Vec<String> = Vec::new();
    let mut i: usize = 0;
    while i < v.len()
        invariant
            i <= v@.len(),
            out@ == v@.subrange(0, i as int),
        decreases v@.len() - i,
    {
        out.push(v[i].clone());
        assert(out@ =~= v@.subrange(0, i + 1 as int));
        i += 1;
    }
    assert(v@.subrange(0, v@.len() as int) =~= v@);
    out
}

} // verus!

//! Layout rules of the markdown widget that do not depend on styling: blank-line detection
//! between blocks, special lines, word widths and table geometry.

use vstd::prelude::*;

use crate::chars::{chars_of, extend_chars, repeat_char, slice_chars, spaces, string_of};
use crate::render::{apply_background_to_line, pad_chars_to, pad_line, strings_are};
use crate::style::{styled_by, StyleFn};
use crate::text::{
    is_space_char, is_whitespace_char, measure_chars, sat, text_width, wrap_text,
    wrap_text_with_ansi, ScanMode,
};
use crate::chars::{utf8_bytes, utf8_len, utf8_length};
use crate::widgets::text::blank_lines;

verus! {

/// The character index at which byte offset `b` falls in `s` (read as UTF-8), counting from
/// character `i` at byte `at`; `None` when `b` is inside a character or past the end.
pub open spec fn char_index_from(s: Seq<char>, i: int, at: int, b: int) -> Option<int>
    decreases s.len() - i,
{
    if at == b {
        Some(i)
    } else if i < 0 || i >= s.len() || at > b {
        None
    } else {
        char_index_from(s, i + 1, at + utf8_len(s[i]), b)
    }
}

/// The character index of byte offset `b` in `s`.
pub open spec fn char_index(s: Seq<char>, b: int) -> Option<int> {
    char_index_from(s, 0, 0, b)
}

proof fn lemma_char_index_bounds(s: Seq<char>, i: int, at: int, b: int)
    requires
        0 <= i <= s.len(),
    ensures
        char_index_from(s, i, at, b) matches Some(k) ==> i <= k <= s.len(),
    decreases s.len() - i,
{
    if at != b && i < s.len() && at <= b {
        lemma_char_index_bounds(s, i + 1, at + utf8_len(s[i]), b);
    }
}

/// Finds the character index of byte offset `b`.
pub fn char_index_of(s: &[char], b: usize) -> (r: Option<usize>)
    ensures
        match char_index(s@, b as int) {
            Some(k) => r == Some(k as usize),
            None => r is None,
        },
        r matches Some(k) ==> k <= s@.len() && char_index(s@, b as int) == Some(k as int),
        r is None ==> char_index(s@, b as int) is None,
{
    proof {
        lemma_char_index_bounds(s@, 0, 0, b as int);
    }
    let mut i: usize = 0;
    let mut at: usize = 0;
    loop
        invariant
            i <= s@.len(),
            at <= b,
            char_index(s@, b as int) == char_index_from(s@, i as int, at as int, b as int),
        decreases s@.len() - i,
    {
        if at == b {
            return Some(i);
        }
        if i >= s.len() {
            return None;
        }
        let u = s[i] as u32;
        let l: usize = if u < 0x80 {
            1
        } else if u < 0x800 {
            2
        } else if u < 0x10000 {
            3
        } else {
            4
        };
        if l > b - at {
            proof {
                assert(char_index_from(s@, i + 1, at + l, b as int) is None) by {
                    assert(at + l > b);
                }
            }
            return None;
        }
        at = at + l;
        i += 1;
    }
}

/// Whether `s[i..]` contains a blank line: after a line break, another line break with only
/// whitespace between them. `saw_break` and `only_space` carry the state from `s[..i]`.
pub open spec fn blank_from(s: Seq<char>, i: int, saw_break: bool, only_space: bool) -> bool
    decreases s.len() - i,
{
    if i < 0 || i >= s.len() {
        false
    } else if s[i] == '\n' || s[i] == '\r' {
        if saw_break && only_space {
            true
        } else {
            blank_from(s, i + 1, true, true)
        }
    } else if is_space_char(s[i]) {
        blank_from(s, i + 1, saw_break, only_space)
    } else {
        blank_from(s, i + 1, false, false)
    }
}

/// Whether there is a blank line in the source between byte offsets `end` and `start`
/// (`start` clamped to the source length); false when `start <= end`, `end` is not before the
/// end of the source, or an offset is not at a character boundary.
pub open spec fn blank_line_between(source: Seq<char>, end: int, start: int) -> bool {
    let total = sat(utf8_bytes(source));
    if start <= end || end >= total {
        false
    } else {
        let stop = if start < total {
            start
        } else {
            total as int
        };
        match (char_index(source, end), char_index(source, stop)) {
            (Some(a), Some(b)) => a <= b && blank_from(source.subrange(a, b), 0, false, true),
            _ => false,
        }
    }
}


/// See `blank_line_between`.
pub fn has_blank_line_between(source: &[char], end: usize, start: usize) -> (r: bool)
    ensures
        r == blank_line_between(source@, end as int, start as int),
{
    let total = utf8_length(source);
    if start <= end || end >= total {
        return false;
    }
    let stop = if start < total {
        start
    } else {
        total
    };
    let a = match char_index_of(source, end) {
        Some(a) => a,
        None => return false,
    };
    let b = match char_index_of(source, stop) {
        Some(b) => b,
        None => return false,
    };
    if a > b {
        return false;
    }
    let slice = slice_chars(source, a, b);
    assert(blank_line_between(source@, end as int, start as int) == blank_from(slice@, 0, false, true));
    let mut saw_break = false;
    let mut only_space = true;
    let mut i: usize = 0;
    while i < slice.len()
        invariant
            i <= slice@.len(),
            blank_from(slice@, 0, false, true) == blank_from(slice@, i as int, saw_break, only_space),
            blank_line_between(source@, end as int, start as int) == blank_from(slice@, 0, false, true),
        decreases slice@.len() - i,
    {
        let ch = slice[i];
        if ch == '\n' || ch == '\r' {
            if saw_break && only_space {
                return true;
            }
            saw_break = true;
            only_space = true;
        } else if is_whitespace_char(ch) {
        } else {
            saw_break = false;
            only_space = false;
        }
        i += 1;
    }
    false
}

/// `s` without its leading whitespace.
pub open spec fn trim_start(s: Seq<char>) -> Seq<char> {
    s.subrange(crate::widgets::select_list::skip_space(s, 0), s.len() as int)
}

/// The color code that marks a line of a nested list.
pub open spec fn nested_marker() -> Seq<char> {
    seq!['\x1b', '[', '3', '6', 'm']
}

/// A line of a nested list: after leading whitespace, the marker followed by `-` or a digit.
pub open spec fn nested_list_line(s: Seq<char>) -> bool {
    let t = trim_start(s);
    t.len() > 5 && t.subrange(0, 5) == nested_marker() && (t[5] == '-' || ('0' <= t[5] && t[5] <= '9'))
}

pub fn is_nested_list_line(line: &str) -> (r: bool)
    ensures
        r == nested_list_line(line@),
{
    let v = chars_of(line);
    let mut a: usize = 0;
    while a < v.len() && is_whitespace_char(v[a])
        invariant
            v@ == line@,
            a <= v@.len(),
            crate::widgets::select_list::skip_space(v@, 0) == crate::widgets::select_list::skip_space(v@, a as int),
        decreases v@.len() - a,
    {
        a += 1;
    }
    proof {
        crate::widgets::select_list::lemma_skip_space_bounds(v@, a as int);
    }
    if v.len() - a <= 5 {
        return false;
    }
    let t = slice_chars(v.as_slice(), a, v.len());
    let ok = t[0] == '\x1b' && t[1] == '[' && t[2] == '3' && t[3] == '6' && t[4] == 'm';
    assert(ok == (t@.subrange(0, 5) =~= nested_marker()));
    ok && (t[5] == '-' || ('0' <= t[5] && t[5] <= '9'))
}

/// `p` occurs in `s` starting at `i`.
pub open spec fn occurs_at(s: Seq<char>, p: Seq<char>, i: int) -> bool {
    0 <= i && i + p.len() <= s.len() && s.subrange(i, i + p.len()) == p
}

pub open spec fn occurs(s: Seq<char>, p: Seq<char>) -> bool {
    exists|i: int| #[trigger] occurs_at(s, p, i)
}

fn find_chars(s: &[char], p: &[char]) -> (r: bool)
    ensures
        r == occurs(s@, p@),
{
    if p.len() > s.len() {
        assert forall|i: int| !#[trigger] occurs_at(s@, p@, i) by {}
        return false;
    }
    let n = s.len();
    let mut i: usize = 0;
    while i <= s.len() - p.len()
        invariant
            n == s@.len(),
            p@.len() <= s@.len(),
            i <= s@.len() - p@.len() + 1,
            forall|k: int| 0 <= k < i ==> !#[trigger] occurs_at(s@, p@, k),
        decreases s@.len() - p@.len() + 1 - i,
    {
        let mut j: usize = 0;
        let mut same = true;
        while j < p.len()
            invariant
                n == s@.len(),
                i + p@.len() <= s@.len(),
                j <= p@.len(),
                same == forall|q: int| 0 <= q < j ==> s@[i + q] == p@[q],
            decreases p@.len() - j,
        {
            if s[i + j] != p[j] {
                same = false;
            }
            j += 1;
        }
        if same {
            assert(s@.subrange(i as int, i + p@.len()) =~= p@);
            assert(occurs_at(s@, p@, i as int));
            return true;
        }
        assert(!occurs_at(s@, p@, i as int)) by {
            if s@.subrange(i as int, i + p@.len()) == p@ {
                let q = choose|q: int| 0 <= q < p@.len() && s@[i + q] != p@[q];
                assert(s@.subrange(i as int, i + p@.len())[q] == s@[i + q]);
            }
        }
        i += 1;
    }
    assert forall|k: int| !#[trigger] occurs_at(s@, p@, k) by {
        if 0 <= k && k < i {
        }
    }
    false
}

pub open spec fn kitty_image_prefix() -> Seq<char> {
    seq!['\x1b', '_', 'G']
}

pub open spec fn iterm_image_prefix() -> Seq<char> {
    seq!['\x1b', ']', '1', '3', '3', '7', ';', 'F', 'i', 'l', 'e', '=']
}

/// A line that carries an inline image (a Kitty or iTerm2 image sequence).
pub open spec fn image_line(s: Seq<char>) -> bool {
    occurs(s, kitty_image_prefix()) || occurs(s, iterm_image_prefix())
}

pub fn is_image_line(line: &str) -> (r: bool)
    ensures
        r == image_line(line@),
{
    let v = chars_of(line);
    let kitty = vec!['\x1b', '_', 'G'];
    let iterm = vec!['\x1b', ']', '1', '3', '3', '7', ';', 'F', 'i', 'l', 'e', '='];
    assert(kitty@ =~= kitty_image_prefix());
    assert(iterm@ =~= iterm_image_prefix());
    find_chars(v.as_slice(), kitty.as_slice()) || find_chars(v.as_slice(), iterm.as_slice())
}

pub open spec fn max_nat(a: nat, b: nat) -> nat {
    if a >= b {
        a
    } else {
        b
    }
}

/// The widest whitespace-separated word of `s[i..]` (widths as displayed), given that the
/// current word began at `start` and the widest so far is `best`.
pub open spec fn widest_word_from(s: Seq<char>, i: int, start: int, best: nat) -> nat
    decreases s.len() - i,
{
    if i < 0 || i >= s.len() {
        if 0 <= start < s.len() {
            max_nat(best, text_width(s.subrange(start, s.len() as int)))
        } else {
            best
        }
    } else if is_space_char(s[i]) {
        let b = if 0 <= start < i {
            max_nat(best, text_width(s.subrange(start, i)))
        } else {
            best
        };
        widest_word_from(s, i + 1, i + 1, b)
    } else {
        widest_word_from(s, i + 1, start, best)
    }
}

/// Width of the widest word of `s`, capped at `cap`.
pub open spec fn longest_word_width(s: Seq<char>, cap: nat) -> nat {
    let w = widest_word_from(s, 0, 0, 0);
    if w <= cap {
        w
    } else {
        cap
    }
}

pub fn get_longest_word_width(text: &str, cap: usize) -> (r: usize)
    ensures
        r == longest_word_width(text@, cap as nat),
{
    let v = chars_of(text);
    let mut best: usize = 0;
    let ghost mut gbest: nat = 0;
    let mut start: usize = 0;
    let mut i: usize = 0;
    while i < v.len()
        invariant
            v@ == text@,
            i <= v@.len(),
            start <= i,
            best == sat(gbest),
            widest_word_from(v@, 0, 0, 0) == widest_word_from(v@, i as int, start as int, gbest),
        decreases v@.len() - i,
    {
        if is_whitespace_char(v[i]) {
            if start < i {
                let word = slice_chars(v.as_slice(), start, i);
                let (w, _m) = measure_chars(word.as_slice(), ScanMode::Text);
                if w > best {
                    best = w;
                }
                proof {
                    gbest = max_nat(gbest, text_width(v@.subrange(start as int, i as int)));
                }
            }
            start = i + 1;
        }
        i += 1;
    }
    if start < v.len() {
        let word = slice_chars(v.as_slice(), start, v.len());
        let (w, _m) = measure_chars(word.as_slice(), ScanMode::Text);
        if w > best {
            best = w;
        }
        proof {
            gbest = max_nat(gbest, text_width(v@.subrange(start as int, v@.len() as int)));
        }
    }
    assert(best == sat(widest_word_from(v@, 0, 0, 0)));
    if best <= cap {
        best
    } else {
        cap
    }
}

/// `n` horizontal rule characters.
pub open spec fn rule(n: nat) -> Seq<char> {
    Seq::new(n, |_i: int| '\u{2500}')
}

/// The cells of a border line joined by `mid` (with a rule character on each side).
pub open spec fn border_cells(widths: Seq<usize>, mid: char) -> Seq<char>
    decreases widths.len(),
{
    if widths.len() == 0 {
        Seq::empty()
    } else if widths.len() == 1 {
        rule(widths[0] as nat)
    } else {
        border_cells(widths.drop_last(), mid) + seq!['\u{2500}', mid, '\u{2500}'] + rule(
            widths.last() as nat,
        )
    }
}

/// A table border: `left`, a rule character, the cells joined by `mid`, a rule character and
/// `right`.
pub open spec fn border_text(widths: Seq<usize>, left: char, mid: char, right: char) -> Seq<char> {
    seq![left, '\u{2500}'] + border_cells(widths, mid) + seq!['\u{2500}', right]
}

pub fn border_line(widths: &[usize], left: char, mid: char, right: char) -> (r: String)
    ensures
        r@ == border_text(widths@, left, mid, right),
{
    let mut v = vec![left, '\u{2500}'];
    let mut i: usize = 0;
    let ghost start = v@;
    while i < widths.len()
        invariant
            i <= widths@.len(),
            start == seq![left, '\u{2500}'],
            v@ == start + border_cells(widths@.subrange(0, i as int), mid),
        decreases widths@.len() - i,
    {
        let ghost before = v@;
        if i > 0 {
            extend_chars(&mut v, &['\u{2500}', mid, '\u{2500}']);
        }
        let cells = repeat_char('\u{2500}', widths[i]);
        assert(cells@ =~= rule(widths@[i as int] as nat));
        extend_chars(&mut v, cells.as_slice());
        proof {
            let pre = widths@.subrange(0, i as int);
            let next = widths@.subrange(0, i + 1 as int);
            assert(next.drop_last() =~= pre);
            if i == 0 {
                assert(pre.len() == 0);
                assert(v@ =~= start + border_cells(next, mid));
            } else {
                assert(v@ =~= start + border_cells(next, mid));
            }
        }
        i += 1;
    }
    assert(widths@.subrange(0, widths@.len() as int) =~= widths@);
    extend_chars(&mut v, &['\u{2500}', right]);
    string_of(v.as_slice())
}

/// The parts of a table row joined by ` │ `.
pub open spec fn joined_parts(parts: Seq<Seq<char>>) -> Seq<char>
    decreases parts.len(),
{
    if parts.len() == 0 {
        Seq::empty()
    } else if parts.len() == 1 {
        parts[0]
    } else {
        joined_parts(parts.drop_last()) + seq![' ', '\u{2502}', ' '] + parts.last()
    }
}

/// A table row: `│ `, the parts joined by ` │ `, and ` │`.
pub open spec fn row_text(parts: Seq<Seq<char>>) -> Seq<char> {
    seq!['\u{2502}', ' '] + joined_parts(parts) + seq![' ', '\u{2502}']
}

pub fn row_line(parts: &[String]) -> (r: String)
    ensures
        r@ == row_text(parts@.map_values(|p: String| p@)),
{
    let ghost pv = parts@.map_values(|p: String| p@);
    let mut v = vec!['\u{2502}', ' '];
    let ghost start = v@;
    let mut i: usize = 0;
    while i < parts.len()
        invariant
            i <= parts@.len(),
            pv == parts@.map_values(|p: String| p@),
            start == seq!['\u{2502}', ' '],
            v@ == start + joined_parts(pv.subrange(0, i as int)),
        decreases parts@.len() - i,
    {
        if i > 0 {
            extend_chars(&mut v, &[' ', '\u{2502}', ' ']);
        }
        extend_chars(&mut v, chars_of(parts[i].as_str()).as_slice());
        proof {
            let pre = pv.subrange(0, i as int);
            let next = pv.subrange(0, i + 1 as int);
            assert(next.drop_last() =~= pre);
            assert(next.last() == parts@[i as int]@);
            if i == 0 {
                assert(v@ =~= start + joined_parts(next));
            } else {
                assert(v@ =~= start + joined_parts(next));
            }
        }
        i += 1;
    }
    assert(pv.subrange(0, parts@.len() as int) =~= pv);
    extend_chars(&mut v, &[' ', '\u{2502}']);
    string_of(v.as_slice())
}

/// What a style puts before its text: the characters before the first NUL of `styled` (the
/// style applied to a lone NUL), or nothing when there is none.
pub open spec fn prefix_before_nul(styled: Seq<char>) -> Seq<char> {
    if exists|i: int| 0 <= i < styled.len() && styled[i] == '\0' {
        styled.subrange(
            0,
            choose|i: int|
                0 <= i < styled.len() && styled[i] == '\0' && forall|j: int|
                    0 <= j < i ==> styled[j] != '\0',
        )
    } else {
        Seq::empty()
    }
}

pub fn style_prefix(styled: &str) -> (r: String)
    ensures
        r@ == prefix_before_nul(styled@),
{
    let v = chars_of(styled);
    let mut i: usize = 0;
    while i < v.len()
        invariant
            v@ == styled@,
            i <= v@.len(),
            forall|j: int| 0 <= j < i ==> v@[j] != '\0',
        decreases v@.len() - i,
    {
        if v[i] == '\0' {
            proof {
                let k = choose|k: int|
                    0 <= k < v@.len() && v@[k] == '\0' && forall|j: int| 0 <= j < k ==> v@[j] != '\0';
                if k < i {
                } else if k > i {
                    assert(v@[i as int] == '\0');
                }
            }
            return string_of(slice_chars(v.as_slice(), 0, i).as_slice());
        }
        i += 1;
    }
    String::new()
}

/// Rendered lines wrapped to `width`; lines holding images are kept as they are.
pub open spec fn wrapped_markdown(lines: Seq<Seq<char>>, width: nat) -> Seq<Seq<char>> {
    lines.map_values(
        |l: Seq<char>|
            if image_line(l) {
                seq![l]
            } else {
                wrap_text(l, width)
            },
    ).flatten()
}

pub fn wrap_markdown_lines(lines: &[String], width: usize) -> (r: Vec<String>)
    ensures
        strings_are(r@, wrapped_markdown(lines@.map_values(|s: String| s@), width as nat)),
{
    let ghost lv = lines@.map_values(|s: String| s@);
    let ghost parts = lv.map_values(
        |l: Seq<char>|
            if image_line(l) {
                seq![l]
            } else {
                wrap_text(l, width as nat)
            },
    );
    let mut out: Vec<String> = Vec::new();
    let mut i: usize = 0;
    assert(parts.subrange(0, 0).flatten() =~= Seq::<Seq<char>>::empty());
    while i < lines.len()
        invariant
            i <= lines@.len(),
            lv == lines@.map_values(|s: String| s@),
            parts == lv.map_values(
                |l: Seq<char>|
                    if image_line(l) {
                        seq![l]
                    } else {
                        wrap_text(l, width as nat)
                    },
            ),
            strings_are(out@, parts.subrange(0, i as int).flatten()),
        decreases lines@.len() - i,
    {
        let ghost before = out@;
        let ghost pre = parts.subrange(0, i as int);
        proof {
            assert(parts.subrange(0, i + 1 as int) =~= pre.push(parts[i as int]));
            pre.lemma_flatten_push(parts[i as int]);
        }
        if is_image_line(lines[i].as_str()) {
            out.push(lines[i].clone());
            proof {
                assert(parts[i as int] == seq![lines@[i as int]@]);
                let full = parts.subrange(0, i + 1 as int).flatten();
                assert(full =~= pre.flatten() + seq![lines@[i as int]@]);
                assert forall|k: int| 0 <= k < out@.len() implies #[trigger] out@[k]@ == full[k] by {
                    if k < before.len() {
                        assert(out@[k] == before[k]);
                    }
                }
            }
        } else {
            let wrapped = wrap_text_with_ansi(lines[i].as_str(), width);
            let mut j: usize = 0;
            while j < wrapped.len()
                invariant
                    j <= wrapped@.len(),
                    out@.len() == before.len() + j,
                    forall|k: int| 0 <= k < before.len() ==> out@[k] == before[k],
                    forall|k: int| 0 <= k < j ==> #[trigger] out@[before.len() + k] == wrapped@[k],
                decreases wrapped@.len() - j,
            {
                out.push(wrapped[j].clone());
                j += 1;
            }
            proof {
                assert(parts[i as int] == wrap_text(lines@[i as int]@, width as nat));
                let full = parts.subrange(0, i + 1 as int).flatten();
                assert(full =~= pre.flatten() + parts[i as int]);
                assert forall|k: int| 0 <= k < out@.len() implies #[trigger] out@[k]@ == full[k] by {
                    if k < before.len() {
                        assert(out@[k] == before[k]);
                    } else {
                        assert(out@[before.len() + (k - before.len())] == wrapped@[k - before.len()]);
                    }
                }
            }
        }
        i += 1;
    }
    assert(parts.subrange(0, lines@.len() as int) =~= parts);
    out
}

/// A rendered line between the side margins, padded to `width`; image lines are kept.
pub open spec fn framed_markdown_line(l: Seq<char>, width: nat, padding_x: nat) -> Seq<char> {
    if image_line(l) {
        l
    } else {
        pad_line(spaces(padding_x) + l + spaces(padding_x), width)
    }
}

/// The framed lines without a background: `padding_y` blank lines, each line framed, and
/// `padding_y` blank lines.
pub open spec fn framed_markdown(lines: Seq<Seq<char>>, width: nat, padding_x: nat, padding_y: nat) -> Seq<Seq<char>> {
    blank_lines(padding_y, width) + lines.map_values(|l: Seq<char>| framed_markdown_line(l, width, padding_x))
        + blank_lines(padding_y, width)
}

/// A blank line of the frame: `width` spaces, through the background when there is one.
pub open spec fn blank_with(width: nat, bg: Option<Box<dyn StyleFn>>) -> Seq<char> {
    match bg {
        Some(f) => f.styled(pad_line(spaces(width), width)),
        None => spaces(width),
    }
}

/// A rendered line between the side margins, padded to `width` and passed through the
/// background when there is one; image lines are kept.
pub open spec fn framed_line_with(l: Seq<char>, width: nat, padding_x: nat, bg: Option<Box<dyn StyleFn>>) -> Seq<char> {
    if image_line(l) {
        l
    } else {
        styled_by(bg, pad_line(spaces(padding_x) + l + spaces(padding_x), width))
    }
}

/// The framed lines: `padding_y` blank lines, each line framed, and `padding_y` blank lines,
/// all but image lines through the background when there is one.
pub open spec fn framed_markdown_with(
    lines: Seq<Seq<char>>,
    width: nat,
    padding_x: nat,
    padding_y: nat,
    bg: Option<Box<dyn StyleFn>>,
) -> Seq<Seq<char>> {
    Seq::new(padding_y, |_i: int| blank_with(width, bg)) + lines.map_values(
        |l: Seq<char>| framed_line_with(l, width, padding_x, bg),
    ) + Seq::new(padding_y, |_i: int| blank_with(width, bg))
}

/// Adds margins and vertical padding; with a background, every non-image line (the blank
/// ones too) is passed through it.
pub fn frame_markdown_lines(
    lines: &[String],
    width: usize,
    padding_x: usize,
    padding_y: usize,
    bg: &Option<Box<dyn StyleFn>>,
) -> (r: Vec<String>)
    ensures
        r@.len() == lines@.len() + 2 * padding_y,
        bg is None ==> strings_are(
            r@,
            framed_markdown(lines@.map_values(|s: String| s@), width as nat, padding_x as nat, padding_y as nat),
        ),
        strings_are(
            r@,
            framed_markdown_with(lines@.map_values(|s: String| s@), width as nat, padding_x as nat, padding_y as nat, *bg),
        ),
{
    let margin = repeat_char(' ', padding_x);
    assert(margin@ =~= spaces(padding_x as nat));
    let mut content: Vec<String> = Vec::new();
    let mut i: usize = 0;
    while i < lines.len()
        invariant
            i <= lines@.len(),
            margin@ == spaces(padding_x as nat),
            content@.len() == i,
            bg is None ==> forall|k: int| 0 <= k < i ==> #[trigger] content@[k]@ == framed_markdown_line(lines@[k]@, width as nat, padding_x as nat),
            forall|k: int| 0 <= k < i ==> #[trigger] content@[k]@ == framed_line_with(lines@[k]@, width as nat, padding_x as nat, *bg),
        decreases lines@.len() - i,
    {
        let ghost before = content@;
        if is_image_line(lines[i].as_str()) {
            content.push(lines[i].clone());
        } else {
            let mut v = margin.clone();
            extend_chars(&mut v, chars_of(lines[i].as_str()).as_slice());
            extend_chars(&mut v, margin.as_slice());
            assert(v@ == spaces(padding_x as nat) + lines@[i as int]@ + spaces(padding_x as nat));
            match bg {
                Some(f) => {
                    let line = apply_background_to_line(string_of(v.as_slice()).as_str(), width, f);
                    assert(line@ == framed_line_with(lines@[i as int]@, width as nat, padding_x as nat, *bg));
                    content.push(line);
                },
                None => {
                    pad_chars_to(&mut v, width);
                    content.push(string_of(v.as_slice()));
                },
            }
        }
        assert forall|k: int| 0 <= k < i + 1 implies #[trigger] content@[k]@ == framed_line_with(lines@[k]@, width as nat, padding_x as nat, *bg) by {
            if k < i {
                assert(content@[k] == before[k]);
            }
        }
        i += 1;
    }
    let empty_line = string_of(repeat_char(' ', width).as_slice());
    assert(empty_line@ =~= spaces(width as nat));
    let mut empties: Vec<String> = Vec::new();
    let mut j: usize = 0;
    while j < padding_y
        invariant
            j <= padding_y,
            empty_line@ == spaces(width as nat),
            empties@.len() == j,
            bg is None ==> forall|k: int| 0 <= k < j ==> #[trigger] empties@[k]@ == spaces(width as nat),
            forall|k: int| 0 <= k < j ==> #[trigger] empties@[k]@ == blank_with(width as nat, *bg),
        decreases padding_y - j,
    {
        let ghost before = empties@;
        match bg {
            Some(f) => {
                empties.push(apply_background_to_line(empty_line.as_str(), width, f));
            },
            None => {
                empties.push(empty_line.clone());
            },
        }
        assert forall|k: int| 0 <= k < j + 1 implies #[trigger] empties@[k]@ == blank_with(width as nat, *bg) by {
            if k < j {
                assert(empties@[k] == before[k]);
            }
        }
        j += 1;
    }
    let mut result = crate::render::copy_strings(empties.as_slice());
    let mut k: usize = 0;
    let ghost top = result@;
    while k < content.len()
        invariant
            k <= content@.len(),
            result@ == top + content@.subrange(0, k as int),
        decreases content@.len() - k,
    {
        result.push(content[k].clone());
        assert(result@ =~= top + content@.subrange(0, k + 1 as int));
        k += 1;
    }
    let ghost middle = result@;
    let mut m: usize = 0;
    while m < empties.len()
        invariant
            m <= empties@.len(),
            result@ == middle + empties@.subrange(0, m as int),
        decreases empties@.len() - m,
    {
        result.push(empties[m].clone());
        assert(result@ =~= middle + empties@.subrange(0, m + 1 as int));
        m += 1;
    }
    proof {
        assert(content@.subrange(0, content@.len() as int) =~= content@);
        assert(empties@.subrange(0, empties@.len() as int) =~= empties@);
        assert(result@ =~= empties@ + content@ + empties@);
        {
            let expected = framed_markdown_with(lines@.map_values(|s: String| s@), width as nat, padding_x as nat, padding_y as nat, *bg);
            let py = padding_y as int;
            let n = lines@.len() as int;
            assert forall|q: int| 0 <= q < result@.len() implies #[trigger] result@[q]@ == expected[q] by {
                if q < py {
                } else if q < py + n {
                    assert(expected[q] == framed_line_with(lines@[q - py]@, width as nat, padding_x as nat, *bg));
                } else {
                    assert(expected[q] == blank_with(width as nat, *bg));
                }
            }
        }
        if bg is None {
            let expected = framed_markdown(lines@.map_values(|s: String| s@), width as nat, padding_x as nat, padding_y as nat);
            let py = padding_y as int;
            let n = lines@.len() as int;
            assert forall|q: int| 0 <= q < result@.len() implies #[trigger] result@[q]@ == expected[q] by {
                if q < py {
                    assert(expected[q] == blank_lines(padding_y as nat, width as nat)[q]);
                } else if q < py + n {
                    assert(expected[q] == framed_markdown_line(lines@[q - py]@, width as nat, padding_x as nat));
                } else {
                    assert(expected[q] == blank_lines(padding_y as nat, width as nat)[q - py - n]);
                }
            }
        }
    }
    result
}

} // verus!

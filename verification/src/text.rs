//! ANSI-aware text measurement, truncation and wrapping.
//!
//! Escape sequences (CSI `ESC [ .. final`, OSC/APC strings ended by BEL or `ESC \`, and
//! two-character escapes) occupy no terminal cells; every other character occupies the
//! number of cells that `unicode-width` reports for it (control characters occupy none).

use vstd::prelude::*;
use unicode_segmentation::UnicodeSegmentation;
use unicode_width::UnicodeWidthChar;

use crate::chars::{chars_of, extend_chars, repeat_char, slice_chars, spaces, string_of};

verus! {

/// The display width that `unicode_width::UnicodeWidthChar::width` reports for a character.
pub uninterp spec fn unicode_char_width(c: char) -> Option<usize>;

/// Calls `unicode_width::UnicodeWidthChar::width`.
/// Claimed, as the crate's source shows: the result is `unicode_char_width(c)`; printable
/// ASCII (U+0020..U+007E) is one cell; C0 and C1 control codes (below U+0020 and
/// U+007F..U+009F) have no width; every other width comes from a `u8` table.
#[verifier::external_body]
fn char_width_raw(c: char) -> (w: Option<usize>)
    ensures
        w == unicode_char_width(c),
        0x20 <= c as u32 && (c as u32) < 0x7f ==> w == Some(1usize),
        (c as u32) < 0x20 || (0x7f <= c as u32 && (c as u32) < 0xa0) ==> w is None,
        w matches Some(n) ==> n <= 255,
{
    UnicodeWidthChar::width(c)
}

/// Cells occupied by a character outside of escape sequences.
pub open spec fn cell_width(c: char) -> nat {
    match unicode_char_width(c) {
        Some(w) => w as nat,
        None => 0,
    }
}

/// Cells occupied by a character: one for printable ASCII, none for control codes.
pub fn char_cells(c: char) -> (w: usize)
    ensures
        w == cell_width(c),
        w <= 255,
        0x20 <= c as u32 && (c as u32) < 0x7f ==> w == 1,
        (c as u32) < 0x20 || (0x7f <= c as u32 && (c as u32) < 0xa0) ==> w == 0,
{
    match char_width_raw(c) {
        Some(w) => w,
        None => 0,
    }
}

/// Scanner state while reading a line that may hold escape sequences.
#[derive(Clone, Copy, Debug, PartialEq, Eq, Structural)]
pub enum ScanMode {
    /// Ordinary text.
    Text,
    /// Just read ESC.
    Escape,
    /// Inside a CSI sequence (`ESC [`), waiting for its final byte.
    Csi,
    /// Inside an OSC or APC string, waiting for BEL or `ESC \`.
    Str,
    /// Inside such a string, just read ESC.
    StrEscape,
}

pub open spec fn is_esc(c: char) -> bool {
    c == '\x1b'
}

/// Next scanner state after reading `c`.
pub open spec fn step(mode: ScanMode, c: char) -> ScanMode {
    match mode {
        ScanMode::Text => if is_esc(c) {
            ScanMode::Escape
        } else {
            ScanMode::Text
        },
        ScanMode::Escape => if c == '[' {
            ScanMode::Csi
        } else if c == ']' || c == '_' {
            ScanMode::Str
        } else {
            ScanMode::Text
        },
        ScanMode::Csi => if '@' <= c && c <= '~' {
            ScanMode::Text
        } else {
            ScanMode::Csi
        },
        ScanMode::Str | ScanMode::StrEscape => if mode == ScanMode::StrEscape && c == '\\' {
            ScanMode::Text
        } else if c == '\x07' {
            ScanMode::Text
        } else if is_esc(c) {
            ScanMode::StrEscape
        } else {
            ScanMode::Str
        },
    }
}

/// Whether `c`, read in state `mode`, is shown on screen.
pub open spec fn shown(mode: ScanMode, c: char) -> bool {
    mode == ScanMode::Text && !is_esc(c)
}

/// Cells that `c` occupies when read in state `mode`.
pub open spec fn cells_in(mode: ScanMode, c: char) -> nat {
    if shown(mode, c) {
        cell_width(c)
    } else {
        0
    }
}

/// Display width of `s` read from state `mode`.
pub open spec fn width_from(s: Seq<char>, mode: ScanMode) -> nat
    decreases s.len(),
{
    if s.len() == 0 {
        0
    } else {
        cells_in(mode, s[0]) + width_from(s.drop_first(), step(mode, s[0]))
    }
}

/// Display width of a line of text.
pub open spec fn text_width(s: Seq<char>) -> nat {
    width_from(s, ScanMode::Text)
}

/// Scanner state after reading all of `s` from `mode`.
pub open spec fn mode_after(s: Seq<char>, mode: ScanMode) -> ScanMode
    decreases s.len(),
{
    if s.len() == 0 {
        mode
    } else {
        mode_after(s.drop_first(), step(mode, s[0]))
    }
}

/// A natural number as a `usize`, saturating at `usize::MAX`.
pub open spec fn sat(n: nat) -> usize {
    if n <= usize::MAX {
        n as usize
    } else {
        usize::MAX
    }
}

pub fn next_mode(mode: ScanMode, c: char) -> (m: ScanMode)
    ensures
        m == step(mode, c),
{
    match mode {
        ScanMode::Text => if c == '\x1b' {
            ScanMode::Escape
        } else {
            ScanMode::Text
        },
        ScanMode::Escape => if c == '[' {
            ScanMode::Csi
        } else if c == ']' || c == '_' {
            ScanMode::Str
        } else {
            ScanMode::Text
        },
        ScanMode::Csi => if '@' <= c && c <= '~' {
            ScanMode::Text
        } else {
            ScanMode::Csi
        },
        ScanMode::Str | ScanMode::StrEscape => if mode == ScanMode::StrEscape && c == '\\' {
            ScanMode::Text
        } else if c == '\x07' {
            ScanMode::Text
        } else if c == '\x1b' {
            ScanMode::StrEscape
        } else {
            ScanMode::Str
        },
    }
}

pub fn cells_of(mode: ScanMode, c: char) -> (w: usize)
    ensures
        w == cells_in(mode, c),
        w <= 255,
{
    if mode == ScanMode::Text && c != '\x1b' {
        char_cells(c)
    } else {
        0
    }
}

/// Reading `s` one character further: the width and state split at index `i`.
pub proof fn lemma_width_split(s: Seq<char>, mode: ScanMode, i: int)
    requires
        0 <= i <= s.len(),
    ensures
        width_from(s, mode) == width_from(s.subrange(0, i), mode) + width_from(
            s.subrange(i, s.len() as int),
            mode_after(s.subrange(0, i), mode),
        ),
    decreases i,
{
    if i == 0 {
        assert(s.subrange(0, 0) =~= Seq::<char>::empty());
        assert(s.subrange(0, s.len() as int) =~= s);
    } else {
        let t = s.drop_first();
        lemma_width_split(t, step(mode, s[0]), i - 1);
        assert(s.subrange(0, i).drop_first() =~= t.subrange(0, i - 1));
        assert(t.subrange(i - 1, t.len() as int) =~= s.subrange(i, s.len() as int));
        assert(s.subrange(0, i)[0] == s[0]);
    }
}

/// The width and state after extending a prefix by one character.
pub proof fn lemma_prefix_step(s: Seq<char>, mode: ScanMode, i: int)
    requires
        0 <= i < s.len(),
    ensures
        width_from(s.subrange(0, i + 1), mode) == width_from(s.subrange(0, i), mode) + cells_in(
            mode_after(s.subrange(0, i), mode),
            s[i],
        ),
        mode_after(s.subrange(0, i + 1), mode) == step(mode_after(s.subrange(0, i), mode), s[i]),
{
    let p = s.subrange(0, i + 1);
    lemma_width_split(p, mode, i);
    lemma_mode_split(p, mode, i);
    assert(p.subrange(0, i) =~= s.subrange(0, i));
    let q = p.subrange(i, i + 1);
    assert(q.len() == 1 && q[0] == s[i]);
    assert(q.drop_first() =~= Seq::<char>::empty());
    let m = mode_after(s.subrange(0, i), mode);
    assert(width_from(q.drop_first(), step(m, q[0])) == 0);
    assert(mode_after(q.drop_first(), step(m, q[0])) == step(m, q[0]));
    assert(p.subrange(0, p.len() as int) =~= p);
}

pub proof fn lemma_mode_split(s: Seq<char>, mode: ScanMode, i: int)
    requires
        0 <= i <= s.len(),
    ensures
        mode_after(s, mode) == mode_after(
            s.subrange(i, s.len() as int),
            mode_after(s.subrange(0, i), mode),
        ),
    decreases i,
{
    if i == 0 {
        assert(s.subrange(0, 0) =~= Seq::<char>::empty());
        assert(s.subrange(0, s.len() as int) =~= s);
    } else {
        let t = s.drop_first();
        lemma_mode_split(t, step(mode, s[0]), i - 1);
        assert(s.subrange(0, i).drop_first() =~= t.subrange(0, i - 1));
        assert(t.subrange(i - 1, t.len() as int) =~= s.subrange(i, s.len() as int));
    }
}

/// Display width of `s` from state `mode`, and the state after it.
pub fn measure_chars(s: &[char], mode: ScanMode) -> (r: (usize, ScanMode))
    ensures
        r.0 == sat(width_from(s@, mode)),
        r.1 == mode_after(s@, mode),
{
    let mut total: usize = 0;
    let mut m = mode;
    let mut i: usize = 0;
    let ghost mut exact: nat = 0;
    while i < s.len()
        invariant
            i <= s@.len(),
            exact == width_from(s@.subrange(0, i as int), mode),
            total == sat(exact),
            m == mode_after(s@.subrange(0, i as int), mode),
        decreases s@.len() - i,
    {
        proof {
            lemma_prefix_step(s@, mode, i as int);
        }
        let w = cells_of(m, s[i]);
        total = total.saturating_add(w);
        proof {
            exact = exact + w as nat;
        }
        m = next_mode(m, s[i]);
        i += 1;
    }
    assert(s@.subrange(0, s@.len() as int) =~= s@);
    (total, m)
}

/// Display width of a line: escape sequences are not counted.
pub fn visible_width(s: &str) -> (w: usize)
    ensures
        w == sat(text_width(s@)),
{
    let v = chars_of(s);
    measure_chars(v.as_slice(), ScanMode::Text).0
}


/// Number of leading characters of `s` (read from `mode`) that fit in `budget` cells:
/// characters are taken while the next one still fits.
pub open spec fn fit_len(s: Seq<char>, mode: ScanMode, budget: nat) -> nat
    decreases s.len(),
{
    if s.len() == 0 {
        0
    } else if cells_in(mode, s[0]) > budget {
        0
    } else {
        1 + fit_len(s.drop_first(), step(mode, s[0]), (budget - cells_in(mode, s[0])) as nat)
    }
}

pub proof fn lemma_fit_len_bound(s: Seq<char>, mode: ScanMode, budget: nat)
    ensures
        fit_len(s, mode, budget) <= s.len(),
    decreases s.len(),
{
    if s.len() > 0 && cells_in(mode, s[0]) <= budget {
        lemma_fit_len_bound(s.drop_first(), step(mode, s[0]), (budget - cells_in(mode, s[0])) as nat);
    }
}

/// Length of the longest prefix of `s` (read from `mode`) that fits in `budget` cells.
pub fn fit_prefix(s: &[char], mode: ScanMode, budget: usize) -> (n: usize)
    ensures
        n == fit_len(s@, mode, budget as nat),
        n <= s@.len(),
{
    let mut i: usize = 0;
    let mut m = mode;
    let mut rem = budget;
    proof {
        assert(s@.subrange(0, s@.len() as int) =~= s@);
    }
    while i < s.len()
        invariant
            i <= s@.len(),
            rem <= budget,
            fit_len(s@, mode, budget as nat) == i + fit_len(
                s@.subrange(i as int, s@.len() as int),
                m,
                rem as nat,
            ),
        ensures
            fit_len(s@, mode, budget as nat) == i,
            i <= s@.len(),
        decreases s@.len() - i,
    {
        let ghost rest = s@.subrange(i as int, s@.len() as int);
        assert(rest[0] == s@[i as int]);
        assert(rest.drop_first() =~= s@.subrange(i + 1, s@.len() as int));
        let w = cells_of(m, s[i]);
        if w > rem {
            break;
        }
        rem = rem - w;
        m = next_mode(m, s[i]);
        i += 1;
    }
    i
}

/// The reset sequence emitted before an ellipsis.
pub open spec fn sgr_reset() -> Seq<char> {
    seq!['\x1b', '[', '0', 'm']
}

/// `s` followed by spaces up to `max` cells when `pad` is set.
pub open spec fn pad_to(s: Seq<char>, max: nat, pad: bool) -> Seq<char> {
    if pad && text_width(s) < max {
        s + spaces((max - text_width(s)) as nat)
    } else {
        s
    }
}

/// Text cut to at most `max` cells: unchanged when it fits; otherwise the longest fitting
/// prefix, a reset sequence and `ellipsis`; only a prefix of `ellipsis` when even that is
/// too wide. With `pad`, the result is padded with spaces to `max` cells.
pub open spec fn truncate_spec(s: Seq<char>, max: nat, ellipsis: Seq<char>, pad: bool) -> Seq<
    char,
> {
    if text_width(s) <= max {
        pad_to(s, max, pad)
    } else if text_width(ellipsis) >= max {
        let n = if ellipsis.len() < max {
            ellipsis.len()
        } else {
            max
        };
        ellipsis.subrange(0, n as int)
    } else {
        let target = (max - text_width(ellipsis)) as nat;
        pad_to(s.subrange(0, fit_len(s, ScanMode::Text, target) as int) + sgr_reset() + ellipsis, max, pad)
    }
}

fn pad_chars(v: &mut Vec<char>, max: usize, pad: bool)
    ensures
        final(v)@ == pad_to(old(v)@, max as nat, pad),
{
    if pad {
        let (w, _m) = measure_chars(v.as_slice(), ScanMode::Text);
        if w < max {
            let fill = repeat_char(' ', max - w);
            extend_chars(v, fill.as_slice());
        }
    }
}

proof fn lemma_width_concat(a: Seq<char>, b: Seq<char>, mode: ScanMode)
    ensures
        width_from(a + b, mode) == width_from(a, mode) + width_from(b, mode_after(a, mode)),
        mode_after(a + b, mode) == mode_after(b, mode_after(a, mode)),
{
    let s = a + b;
    lemma_width_split(s, mode, a.len() as int);
    lemma_mode_split(s, mode, a.len() as int);
    assert(s.subrange(0, a.len() as int) =~= a);
    assert(s.subrange(a.len() as int, s.len() as int) =~= b);
}

proof fn lemma_prefix_width(s: Seq<char>, mode: ScanMode, budget: nat)
    ensures
        width_from(s.subrange(0, fit_len(s, mode, budget) as int), mode) <= budget,
    decreases s.len(),
{
    lemma_fit_len_bound(s, mode, budget);
    if s.len() == 0 || cells_in(mode, s[0]) > budget {
        assert(s.subrange(0, 0) =~= Seq::<char>::empty());
    } else {
        let t = s.drop_first();
        let b2 = (budget - cells_in(mode, s[0])) as nat;
        lemma_prefix_width(t, step(mode, s[0]), b2);
        let n = fit_len(s, mode, budget);
        assert(s.subrange(0, n as int).drop_first() =~= t.subrange(0, (n - 1) as int));
        assert(s.subrange(0, n as int)[0] == s[0]);
    }
}

/// Truncates `text` to at most `max_width` cells, ending with `ellipsis` when cut.
pub fn truncate_to_width(text: &str, max_width: usize, ellipsis: &str, pad: bool) -> (r: String)
    ensures
        text_width(text@) <= usize::MAX || max_width < usize::MAX ==> r@ == truncate_spec(
            text@,
            max_width as nat,
            ellipsis@,
            pad,
        ),
{
    let v = chars_of(text);
    let e = chars_of(ellipsis);
    let (w, _m) = measure_chars(v.as_slice(), ScanMode::Text);
    if w <= max_width {
        let mut out = v;
        pad_chars(&mut out, max_width, pad);
        return string_of(out.as_slice());
    }
    let (ew, _m2) = measure_chars(e.as_slice(), ScanMode::Text);
    if ew >= max_width {
        let n = if e.len() < max_width {
            e.len()
        } else {
            max_width
        };
        let cut = slice_chars(e.as_slice(), 0, n);
        return string_of(cut.as_slice());
    }
    let target = max_width - ew;
    let n = fit_prefix(v.as_slice(), ScanMode::Text, target);
    let mut out = slice_chars(v.as_slice(), 0, n);
    let reset = vec!['\x1b', '[', '0', 'm'];
    extend_chars(&mut out, reset.as_slice());
    extend_chars(&mut out, e.as_slice());
    proof {
        lemma_prefix_width(v@, ScanMode::Text, target as nat);
        let p = v@.subrange(0, n as int);
        lemma_width_concat(p, sgr_reset(), ScanMode::Text);
        lemma_width_concat(p + sgr_reset(), e@, ScanMode::Text);
        assert(reset@ =~= sgr_reset());
    }
    pad_chars(&mut out, max_width, pad);
    string_of(out.as_slice())
}


/// Lines of `s`, split at every newline (a trailing newline yields a final empty line).
pub open spec fn split_lines(s: Seq<char>) -> Seq<Seq<char>>
    decreases s.len(),
{
    if s.len() == 0 {
        seq![Seq::<char>::empty()]
    } else {
        let init = split_lines(s.drop_last());
        if s.last() == '\n' {
            init.push(Seq::<char>::empty())
        } else {
            init.update(init.len() - 1, init.last().push(s.last()))
        }
    }
}

pub proof fn lemma_split_lines_nonempty(s: Seq<char>)
    ensures
        split_lines(s).len() >= 1,
    decreases s.len(),
{
    if s.len() > 0 {
        lemma_split_lines_nonempty(s.drop_last());
    }
}

/// Splits text at newlines.
pub fn split_lines_chars(v: &[char]) -> (r: Vec<Vec<char>>)
    ensures
        r@.len() == split_lines(v@).len(),
        forall|i: int| 0 <= i < r@.len() ==> #[trigger] r@[i]@ == split_lines(v@)[i],
{
    let mut out: Vec<Vec<char>> = Vec::new();
    let mut cur: Vec<char> = Vec::new();
    let mut i: usize = 0;
    proof {
        assert(v@.subrange(0, 0) =~= Seq::<char>::empty());
    }
    while i < v.len()
        invariant
            i <= v@.len(),
            out@.len() + 1 == split_lines(v@.subrange(0, i as int)).len(),
            forall|k: int|
                0 <= k < out@.len() ==> #[trigger] out@[k]@ == split_lines(
                    v@.subrange(0, i as int),
                )[k],
            cur@ == split_lines(v@.subrange(0, i as int)).last(),
        decreases v@.len() - i,
    {
        let ghost p = v@.subrange(0, i as int);
        let ghost q = v@.subrange(0, i + 1 as int);
        assert(q.drop_last() =~= p);
        assert(q.last() == v@[i as int]);
        proof {
            lemma_split_lines_nonempty(p);
        }
        if v[i] == '\n' {
            let done = cur;
            out.push(done);
            cur = Vec::new();
        } else {
            cur.push(v[i]);
        }
        i += 1;
    }
    assert(v@.subrange(0, v@.len() as int) =~= v@);
    out.push(cur);
    out
}

/// Index of the last space (shown, not at index 0) among positions `i..=n` of `s`,
/// reading from state `m`; `best` when there is none.
pub open spec fn last_space_from(s: Seq<char>, i: int, m: ScanMode, n: int, best: int) -> int
    decreases n + 1 - i,
{
    if i > n || i >= s.len() || i < 0 {
        best
    } else {
        let best2 = if i >= 1 && m == ScanMode::Text && s[i] == ' ' {
            i
        } else {
            best
        };
        last_space_from(s, i + 1, step(m, s[i]), n, best2)
    }
}

/// Greedy word wrap of one line (no newlines) to `w` cells, reading from state `mode`.
pub open spec fn wrap_line(s: Seq<char>, mode: ScanMode, w: nat) -> Seq<Seq<char>>
    decreases s.len(),
{
    let n = fit_len(s, mode, w) as int;
    if n >= s.len() {
        seq![s]
    } else {
        let b = last_space_from(s, 0, mode, n, 0);
        if b > 0 && b <= n {
            seq![s.subrange(0, b)] + wrap_line(
                s.subrange(b + 1, s.len() as int),
                mode_after(s.subrange(0, b + 1), mode),
                w,
            )
        } else {
            let k = if n == 0 {
                1
            } else {
                n
            };
            seq![s.subrange(0, k)] + wrap_line(
                s.subrange(k, s.len() as int),
                mode_after(s.subrange(0, k), mode),
                w,
            )
        }
    }
}

/// All lines of `s` wrapped to `w` cells, in order.
pub open spec fn wrap_text(s: Seq<char>, w: nat) -> Seq<Seq<char>> {
    split_lines(s).map_values(|line: Seq<char>| wrap_line(line, ScanMode::Text, w)).flatten()
}

fn last_space(s: &[char], mode: ScanMode, n: usize) -> (b: usize)
    requires
        n < s@.len(),
    ensures
        b as int == last_space_from(s@, 0, mode, n as int, 0),
        b <= n,
{
    let mut i: usize = 0;
    let mut m = mode;
    let mut best: usize = 0;
    while i <= n
        invariant
            i <= n + 1,
            n < s@.len(),
            best <= n,
            last_space_from(s@, 0, mode, n as int, 0) == last_space_from(
                s@,
                i as int,
                m,
                n as int,
                best as int,
            ),
        decreases n + 1 - i,
    {
        if i >= 1 && m == ScanMode::Text && s[i] == ' ' {
            best = i;
        }
        m = next_mode(m, s[i]);
        i += 1;
    }
    best
}

/// Wraps one line (no newlines) to `w` cells.
pub fn wrap_line_chars(s: &[char], mode: ScanMode, w: usize) -> (r: Vec<Vec<char>>)
    ensures
        r@.len() == wrap_line(s@, mode, w as nat).len(),
        forall|i: int| 0 <= i < r@.len() ==> #[trigger] r@[i]@ == wrap_line(s@, mode, w as nat)[i],
{
    let mut out: Vec<Vec<char>> = Vec::new();
    let mut rest: Vec<char> = slice_chars(s, 0, s.len());
    let mut m = mode;
    assert(s@.subrange(0, s@.len() as int) =~= s@);
    loop
        invariant_except_break
            wrap_line(s@, mode, w as nat) =~= out@.map_values(|x: Vec<char>| x@) + wrap_line(
                rest@,
                m,
                w as nat,
            ),
        invariant
            forall|i: int|
                0 <= i < out@.len() ==> #[trigger] out@[i]@ == wrap_line(s@, mode, w as nat)[i],
        ensures
            out@.len() == wrap_line(s@, mode, w as nat).len(),
            forall|i: int|
                0 <= i < out@.len() ==> #[trigger] out@[i]@ == wrap_line(s@, mode, w as nat)[i],
        decreases rest@.len(),
    {
        let ghost old_out = out@;
        let ghost old_rest = rest@;
        let n = fit_prefix(rest.as_slice(), m, w);
        if n >= rest.len() {
            let last = rest;
            out.push(last);
            assert(out@.map_values(|x: Vec<char>| x@) =~= old_out.map_values(|x: Vec<char>| x@)
                + seq![old_rest]);
            assert(wrap_line(old_rest, m, w as nat) =~= seq![old_rest]);
            assert(wrap_line(s@, mode, w as nat) =~= out@.map_values(|x: Vec<char>| x@));
            assert(out@.len() == wrap_line(s@, mode, w as nat).len());
            assert forall|i: int| 0 <= i < out@.len() implies #[trigger] out@[i]@ == wrap_line(s@, mode, w as nat)[i] by {
                assert(out@.map_values(|x: Vec<char>| x@)[i] == out@[i]@);
            }
            break;
        }
        let b = last_space(rest.as_slice(), m, n);
        let cut: usize;
        let skip: usize;
        if b > 0 && b <= n {
            cut = b;
            skip = b + 1;
        } else {
            cut = if n == 0 {
                1
            } else {
                n
            };
            skip = cut;
        }
        let line = slice_chars(rest.as_slice(), 0, cut);
        let consumed = slice_chars(rest.as_slice(), 0, skip);
        let next = slice_chars(rest.as_slice(), skip, rest.len());
        let (_cw, m2) = measure_chars(consumed.as_slice(), m);
        out.push(line);
        assert(out@.map_values(|x: Vec<char>| x@) =~= old_out.map_values(|x: Vec<char>| x@) + seq![
            old_rest.subrange(0, cut as int),
        ]);
        rest = next;
        m = m2;
    }
    out
}

/// Wraps text to `width` cells: each newline-separated line is word-wrapped greedily,
/// breaking at the last space that fits (dropping it) or, within a word, after the last
/// character that fits. Escape sequences take no cells.
pub fn wrap_text_with_ansi(text: &str, width: usize) -> (r: Vec<String>)
    ensures
        r@.len() == wrap_text(text@, width as nat).len(),
        forall|i: int| 0 <= i < r@.len() ==> #[trigger] r@[i]@ == wrap_text(text@, width as nat)[i],
{
    let v = chars_of(text);
    let lines = split_lines_chars(v.as_slice());
    let mut out: Vec<String> = Vec::new();
    let ghost parts = split_lines(v@).map_values(|line: Seq<char>| wrap_line(line, ScanMode::Text, width as nat));
    let mut i: usize = 0;
    assert(parts.subrange(0, 0).flatten() =~= Seq::<Seq<char>>::empty());
    while i < lines.len()
        invariant
            i <= lines@.len(),
            lines@.len() == split_lines(v@).len(),
            forall|k: int| 0 <= k < lines@.len() ==> #[trigger] lines@[k]@ == split_lines(v@)[k],
            parts == split_lines(v@).map_values(|line: Seq<char>| wrap_line(line, ScanMode::Text, width as nat)),
            out@.len() == parts.subrange(0, i as int).flatten().len(),
            forall|k: int| 0 <= k < out@.len() ==> #[trigger] out@[k]@ == parts.subrange(0, i as int).flatten()[k],
        decreases lines@.len() - i,
    {
        let wrapped = wrap_line_chars(lines[i].as_slice(), ScanMode::Text, width);
        let ghost before = out@;
        let mut j: usize = 0;
        while j < wrapped.len()
            invariant
                j <= wrapped@.len(),
                out@.len() == before.len() + j,
                forall|k: int| 0 <= k < before.len() ==> out@[k] == before[k],
                forall|k: int| 0 <= k < before.len() ==> #[trigger] before[k]@ == parts.subrange(0, i as int).flatten()[k],
                before.len() == parts.subrange(0, i as int).flatten().len(),
                forall|k: int| 0 <= k < j ==> #[trigger] out@[before.len() + k]@ == wrapped@[k]@,
            decreases wrapped@.len() - j,
        {
            out.push(string_of(wrapped[j].as_slice()));
            j += 1;
        }
        proof {
            let pre = parts.subrange(0, i as int);
            assert(parts.subrange(0, i + 1 as int) =~= pre.push(parts[i as int]));
            pre.lemma_flatten_push(parts[i as int]);
            assert(parts[i as int] == wrap_line(split_lines(v@)[i as int], ScanMode::Text, width as nat));
            let full = parts.subrange(0, i + 1 as int).flatten();
            assert(full =~= pre.flatten() + parts[i as int]);
            assert(wrapped@.len() == parts[i as int].len());
            assert forall|k: int| 0 <= k < out@.len() implies #[trigger] out@[k]@ == full[k] by {
                if k >= before.len() {
                    assert(out@[before.len() + (k - before.len())]@ == wrapped@[k - before.len()]@);
                    assert(full[k] == parts[i as int][k - before.len()]);
                } else {
                    assert(out@[k] == before[k]);
                    assert(full[k] == pre.flatten()[k]);
                }
            }
        }
        i += 1;
    }
    assert(parts.subrange(0, lines@.len() as int) =~= parts);
    out
}


/// The extended grapheme clusters that `unicode_segmentation::UnicodeSegmentation::graphemes`
/// yields for a text.
pub uninterp spec fn grapheme_clusters(s: Seq<char>) -> Seq<Seq<char>>;

/// Calls `UnicodeSegmentation::graphemes(s, true)` and copies each cluster.
/// Claimed: the clusters are `grapheme_clusters(s)`; as the crate's source shows, they are
/// consecutive non-empty slices of `s` that together make up all of `s`.
#[verifier::external_body]
pub fn grapheme_segments(s: &str) -> (r: Vec<String>)
    ensures
        r@.map_values(|g: String| g@) == grapheme_clusters(s@),
        r@.map_values(|g: String| g@).flatten() == s@,
        forall|i: int| 0 <= i < r@.len() ==> (#[trigger] r@[i])@.len() > 0,
{
    s.graphemes(true).map(|g| g.to_string()).collect()
}

/// Unicode `White_Space` characters (as `char::is_whitespace` defines them).
pub open spec fn is_space_char(c: char) -> bool {
    let u = c as u32;
    (0x09 <= u && u <= 0x0d) || u == 0x20 || u == 0x85 || u == 0xa0 || u == 0x1680 || (0x2000
        <= u && u <= 0x200a) || u == 0x2028 || u == 0x2029 || u == 0x202f || u == 0x205f || u
        == 0x3000
}

/// Punctuation that separates words: ASCII punctuation other than `_`.
pub open spec fn is_punct_char(c: char) -> bool {
    let u = c as u32;
    ((0x21 <= u && u <= 0x2f) || (0x3a <= u && u <= 0x40) || (0x5b <= u && u <= 0x60) || (0x7b
        <= u && u <= 0x7e)) && u != 0x5f
}

pub fn is_whitespace_char(c: char) -> (r: bool)
    ensures
        r == is_space_char(c),
{
    let u = c as u32;
    (0x09 <= u && u <= 0x0d) || u == 0x20 || u == 0x85 || u == 0xa0 || u == 0x1680 || (0x2000
        <= u && u <= 0x200a) || u == 0x2028 || u == 0x2029 || u == 0x202f || u == 0x205f || u
        == 0x3000
}

pub fn is_punctuation_char(c: char) -> (r: bool)
    ensures
        r == is_punct_char(c),
{
    let u = c as u32;
    ((0x21 <= u && u <= 0x2f) || (0x3a <= u && u <= 0x40) || (0x5b <= u && u <= 0x60) || (0x7b
        <= u && u <= 0x7e)) && u != 0x5f
}

/// A segment counts as whitespace when any of its characters is.
pub open spec fn ws_segment(g: Seq<char>) -> bool {
    exists|i: int| 0 <= i < g.len() && is_space_char(#[trigger] g[i])
}

/// A segment counts as punctuation when any of its characters is.
pub open spec fn punct_segment(g: Seq<char>) -> bool {
    exists|i: int| 0 <= i < g.len() && is_punct_char(#[trigger] g[i])
}

pub fn is_whitespace_segment(g: &str) -> (r: bool)
    ensures
        r == ws_segment(g@),
{
    let v = chars_of(g);
    let mut i: usize = 0;
    while i < v.len()
        invariant
            v@ == g@,
            i <= v@.len(),
            forall|j: int| 0 <= j < i ==> !is_space_char(#[trigger] v@[j]),
        decreases v@.len() - i,
    {
        if is_whitespace_char(v[i]) {
            return true;
        }
        i += 1;
    }
    false
}

pub fn is_punctuation_segment(g: &str) -> (r: bool)
    ensures
        r == punct_segment(g@),
{
    let v = chars_of(g);
    let mut i: usize = 0;
    while i < v.len()
        invariant
            v@ == g@,
            i <= v@.len(),
            forall|j: int| 0 <= j < i ==> !is_punct_char(#[trigger] v@[j]),
        decreases v@.len() - i,
    {
        if is_punctuation_char(v[i]) {
            return true;
        }
        i += 1;
    }
    false
}

} // verus!

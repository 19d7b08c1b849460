//! The multi-line editor: grapheme-aware word wrapping of a line into chunks, paste markers,
//! the editor's theme and modes; the widget itself is in `editor_widget`.

use vstd::prelude::*;

use crate::chars::{chars_of, extend_chars, string_of};
use crate::style::StyleFn;
use crate::text::{
    grapheme_clusters, grapheme_segments, is_whitespace_segment, sat, text_width, visible_width,
    ws_segment,
};
use crate::chars::{utf8_bytes, utf8_length};
use crate::widgets::select_list::SelectListTheme;

pub use crate::widgets::editor_widget::{Editor, EditorOptions};

verus! {

/// A piece of a wrapped line: its text and its byte range in the line.
#[derive(Debug, Clone, PartialEq, Eq)]
pub struct TextChunk {
    pub text: String,
    pub start_index: usize,
    pub end_index: usize,
}

/// Styles of the editor: its border and its autocomplete list.
pub struct EditorTheme {
    pub border_color: Box<dyn StyleFn>,
    pub select_list: SelectListTheme,
}

/// How tall the editor renders.
#[derive(Clone, Copy, Debug, PartialEq, Eq, Structural)]
pub enum EditorHeightMode {
    /// Chat-style height heuristic.
    Default,
    /// Fill the rows the editor is told are available.
    FillAvailable,
}

/// What a large paste inserts.
#[derive(Clone, Copy, Debug, PartialEq, Eq, Structural)]
pub enum EditorPasteMode {
    /// Large pastes become paste markers.
    Default,
    /// The pasted text itself, always.
    Literal,
}

/// Width of one grapheme as displayed on its own.
pub open spec fn seg_width(g: Seq<char>) -> nat {
    sat(text_width(g)) as nat
}

/// State of the wrapping scan: finished chunks (as ranges of segment indices), width of the
/// current chunk, its first segment, and the latest break opportunity with the width up to it.
pub struct WrapScan {
    pub chunks: Seq<(int, int)>,
    pub width: nat,
    pub start: int,
    pub opp: Option<int>,
    pub opp_width: nat,
}

/// Reading segment `idx`: when it overflows, the chunk is closed at the last break
/// opportunity (after whitespace, before a non-whitespace segment) or else before this
/// segment.
pub open spec fn wrap_step(g: Seq<Seq<char>>, max: nat, st: WrapScan, idx: int) -> WrapScan {
    let w = seg_width(g[idx]);
    let st1 = if st.width + w > max {
        match st.opp {
            Some(o) => WrapScan {
                chunks: st.chunks.push((st.start, o)),
                width: if st.opp_width < st.width { (st.width - st.opp_width) as nat } else { 0 },
                start: o,
                opp: None,
                opp_width: st.opp_width,
            },
            None => if st.start < idx {
                WrapScan { chunks: st.chunks.push((st.start, idx)), width: 0, start: idx, opp: None, opp_width: st.opp_width }
            } else {
                WrapScan { opp: None, ..st }
            },
        }
    } else {
        st
    };
    let w2 = sat(st1.width + w) as nat;
    if ws_segment(g[idx]) && idx + 1 < g.len() && !ws_segment(g[idx + 1]) {
        WrapScan { width: w2, opp: Some(idx + 1), opp_width: w2, ..st1 }
    } else {
        WrapScan { width: w2, ..st1 }
    }
}

pub open spec fn wrap_scan(g: Seq<Seq<char>>, max: nat, st: WrapScan, idx: int) -> WrapScan
    decreases g.len() - idx,
{
    if idx < 0 || idx >= g.len() {
        st
    } else {
        wrap_scan(g, max, wrap_step(g, max, st, idx), idx + 1)
    }
}

pub open spec fn initial_scan() -> WrapScan {
    WrapScan { chunks: Seq::empty(), width: 0, start: 0, opp: None, opp_width: 0 }
}

/// The segment ranges of the chunks of a line made of segments `g`.
pub open spec fn chunk_ranges(g: Seq<Seq<char>>, max: nat) -> Seq<(int, int)> {
    let st = wrap_scan(g, max, initial_scan(), 0);
    st.chunks.push((st.start, g.len() as int))
}

/// Byte offset of segment `k`.
pub open spec fn seg_offset(g: Seq<Seq<char>>, k: int) -> usize {
    sat(utf8_bytes(g.subrange(0, k).flatten()))
}

/// The chunks of a line: its text and byte range. An empty line or a zero width gives one
/// empty chunk; a line that fits is one chunk; otherwise the grapheme ranges of `chunk_ranges`.
pub open spec fn word_wrap(line: Seq<char>, max: nat) -> Seq<(Seq<char>, usize, usize)> {
    if line.len() == 0 || max == 0 {
        seq![(Seq::<char>::empty(), 0usize, 0usize)]
    } else if sat(text_width(line)) <= max {
        seq![(line, 0usize, sat(utf8_bytes(line)))]
    } else {
        let g = grapheme_clusters(line);
        chunk_ranges(g, max).map_values(
            |r: (int, int)| (g.subrange(r.0, r.1).flatten(), seg_offset(g, r.0), seg_offset(g, r.1)),
        )
    }
}

pub open spec fn chunk_view(c: TextChunk) -> (Seq<char>, usize, usize) {
    (c.text@, c.start_index, c.end_index)
}

proof fn lemma_utf8_bytes_concat(a: Seq<char>, b: Seq<char>)
    ensures
        utf8_bytes(a + b) == utf8_bytes(a) + utf8_bytes(b),
    decreases b.len(),
{
    if b.len() > 0 {
        lemma_utf8_bytes_concat(a, b.drop_last());
        assert((a + b).drop_last() =~= a + b.drop_last());
        assert((a + b).last() == b.last());
    } else {
        assert(a + b =~= a);
    }
}

/// The texts of the chunks, one after the other.
pub open spec fn chunk_texts(cs: Seq<(Seq<char>, usize, usize)>) -> Seq<char> {
    cs.map_values(|c: (Seq<char>, usize, usize)| c.0).flatten()
}

/// The chunks tile the line: their texts make up the whole line in order, and their byte
/// ranges follow each other from 0 to the line's length in bytes.
pub open spec fn chunks_tile(cs: Seq<(Seq<char>, usize, usize)>, line: Seq<char>) -> bool {
    &&& cs.len() >= 1
    &&& chunk_texts(cs) == line
    &&& cs[0].1 == 0
    &&& cs.last().2 == sat(utf8_bytes(line))
    &&& forall|k: int| 0 <= k < cs.len() - 1 ==> #[trigger] cs[k].2 == cs[k + 1].1
}

/// Ranges that follow each other from 0 up to `end`.
spec fn contiguous(ch: Seq<(int, int)>, end: int) -> bool {
    if ch.len() == 0 {
        end == 0
    } else {
        &&& ch[0].0 == 0
        &&& ch.last().1 == end
        &&& forall|k: int| 0 <= k < ch.len() - 1 ==> #[trigger] ch[k].1 == ch[k + 1].0
        &&& forall|k: int| 0 <= k < ch.len() ==> 0 <= (#[trigger] ch[k]).0 <= ch[k].1
    }
}

spec fn scan_ok(st: WrapScan, idx: int, n: int) -> bool {
    &&& 0 <= st.start <= idx <= n
    &&& st.opp matches Some(o) ==> st.start <= o <= idx
    &&& contiguous(st.chunks, st.start)
}

proof fn lemma_contiguous_push(ch: Seq<(int, int)>, end: int, next: int)
    requires
        contiguous(ch, end),
        0 <= end <= next,
    ensures
        contiguous(ch.push((end, next)), next),
{
    let c2 = ch.push((end, next));
    if ch.len() > 0 {
        assert forall|k: int| 0 <= k < c2.len() - 1 implies #[trigger] c2[k].1 == c2[k + 1].0 by {
            if k < ch.len() - 1 {
                assert(c2[k] == ch[k] && c2[k + 1] == ch[k + 1]);
            } else {
                assert(c2[k] == ch.last());
            }
        }
        assert forall|k: int| 0 <= k < c2.len() implies 0 <= (#[trigger] c2[k]).0 <= c2[k].1 by {
            if k < ch.len() {
                assert(c2[k] == ch[k]);
            }
        }
    }
}

proof fn lemma_scan_ok(g: Seq<Seq<char>>, max: nat, st: WrapScan, idx: int)
    requires
        scan_ok(st, idx, g.len() as int),
    ensures
        scan_ok(wrap_scan(g, max, st, idx), g.len() as int, g.len() as int),
    decreases g.len() - idx,
{
    if idx < g.len() {
        let w = seg_width(g[idx]);
        if st.width + w > max {
            match st.opp {
                Some(o) => {
                    lemma_contiguous_push(st.chunks, st.start, o);
                },
                None => {
                    if st.start < idx {
                        lemma_contiguous_push(st.chunks, st.start, idx);
                    }
                },
            }
        }
        lemma_scan_ok(g, max, wrap_step(g, max, st, idx), idx + 1);
    }
}

proof fn lemma_ranges_flatten(g: Seq<Seq<char>>, r: Seq<(int, int)>, end: int)
    requires
        contiguous(r, end),
        end <= g.len(),
        forall|k: int| 0 <= k < r.len() ==> 0 <= (#[trigger] r[k]).0,
    ensures
        r.map_values(|x: (int, int)| g.subrange(x.0, x.1).flatten()).flatten() == g.subrange(0, end).flatten(),
    decreases r.len(),
{
    let f = |x: (int, int)| g.subrange(x.0, x.1).flatten();
    if r.len() == 0 {
        assert(r.map_values(f) =~= Seq::<Seq<char>>::empty());
        assert(g.subrange(0, 0) =~= Seq::<Seq<char>>::empty());
    } else {
        let init = r.drop_last();
        let (a, b) = r.last();
        assert(contiguous(init, a)) by {
            if init.len() > 0 {
                assert(init.last() == r[r.len() - 2]);
                assert(r[r.len() - 2].1 == r[r.len() - 1].0);
                assert forall|k: int| 0 <= k < init.len() - 1 implies #[trigger] init[k].1 == init[k + 1].0 by {
                    assert(init[k] == r[k] && init[k + 1] == r[k + 1]);
                }
                assert forall|k: int| 0 <= k < init.len() implies 0 <= (#[trigger] init[k]).0 <= init[k].1 by {
                    assert(init[k] == r[k]);
                }
            } else {
                assert(r[0].0 == 0);
            }
        }
        assert(r[r.len() - 1].0 <= r[r.len() - 1].1);
        lemma_ranges_flatten(g, init, a);
        assert(r.map_values(f) =~= init.map_values(f).push(f((a, b))));
        init.map_values(f).lemma_flatten_push(f((a, b)));
        assert(g.subrange(0, b) =~= g.subrange(0, a) + g.subrange(a, b));
        vstd::seq_lib::lemma_flatten_concat(g.subrange(0, a), g.subrange(a, b));
    }
}

/// The chunks of `word_wrap` tile the line whenever the width is positive and the graphemes
/// make up the line.
proof fn lemma_word_wrap_tiles(line: Seq<char>, max: nat)
    requires
        max > 0,
        line.len() > 0 && sat(text_width(line)) > max ==> grapheme_clusters(line).flatten() == line,
    ensures
        chunks_tile(word_wrap(line, max), line),
{
    let cs = word_wrap(line, max);
    if line.len() == 0 {
        assert(chunk_texts(cs) =~= Seq::<char>::empty()) by {
            assert(cs.map_values(|c: (Seq<char>, usize, usize)| c.0) =~= seq![Seq::<char>::empty()]);
            seq![Seq::<char>::empty()].lemma_flatten_singleton();
            assert(chunk_texts(cs) == seq![Seq::<char>::empty()].flatten());
        }
        assert(line =~= Seq::<char>::empty());
        assert(utf8_bytes(line) == 0);
    } else if sat(text_width(line)) <= max {
        assert(cs.map_values(|c: (Seq<char>, usize, usize)| c.0) =~= seq![line]);
        seq![line].lemma_flatten_singleton();
        assert(chunk_texts(cs) == seq![line].flatten());
    } else {
        let g = grapheme_clusters(line);
        let n = g.len() as int;
        lemma_scan_ok(g, max, initial_scan(), 0);
        let st = wrap_scan(g, max, initial_scan(), 0);
        let r = chunk_ranges(g, max);
        lemma_contiguous_push(st.chunks, st.start, n);
        lemma_ranges_flatten(g, r, n);
        assert(g.subrange(0, n) =~= g);
        let f = |x: (int, int)| g.subrange(x.0, x.1).flatten();
        assert(cs.map_values(|c: (Seq<char>, usize, usize)| c.0) =~= r.map_values(f));
        assert(r.map_values(f).flatten() == g.subrange(0, n).flatten());
        assert(chunk_texts(cs) == r.map_values(f).flatten());
        assert forall|k: int| 0 <= k < cs.len() - 1 implies #[trigger] cs[k].2 == cs[k + 1].1 by {
            assert(r[k].1 == r[k + 1].0);
        }
        assert(g.subrange(0, 0) =~= Seq::<Seq<char>>::empty());
        assert(Seq::<Seq<char>>::empty().flatten() =~= Seq::<char>::empty());
    }
}

/// The chunks of a line given as its grapheme clusters `segs`: clusters are taken in order
/// and a chunk ends before a cluster that would make it wider than `max_width`, after the
/// last whitespace where there is one (see `chunk_ranges`); each chunk carries its byte range.
pub open spec fn wrap_clusters(g: Seq<Seq<char>>, max: nat) -> Seq<(Seq<char>, usize, usize)> {
    chunk_ranges(g, max).map_values(
        |r: (int, int)| (g.subrange(r.0, r.1).flatten(), seg_offset(g, r.0), seg_offset(g, r.1)),
    )
}

/// Wraps a line given as its grapheme clusters (see `wrap_clusters`).
pub fn wrap_segments(segs: &Vec<String>, max_width: usize) -> (out: Vec<TextChunk>)
    ensures
        out@.map_values(|c: TextChunk| chunk_view(c)) == wrap_clusters(segs@.map_values(|s: String| s@), max_width as nat),
{
    let ghost g = segs@.map_values(|s: String| s@);
    let n = segs.len();
    assert(segs@.map_values(|s: String| s@).len() == n);
    let mut ranges: Vec<(usize, usize)> = Vec::new();
    let mut width: usize = 0;
    let mut start: usize = 0;
    let mut opp: Option<usize> = None;
    let mut opp_width: usize = 0;
    let ghost mut st = initial_scan();
    let mut idx: usize = 0;
    while idx < n
        invariant
            n == segs@.len(),
            segs@.map_values(|s: String| s@) == g,
            idx <= n,
            wrap_scan(g, max_width as nat, initial_scan(), 0) == wrap_scan(g, max_width as nat, st, idx as int),
            st.chunks.len() == ranges@.len(),
            forall|k: int| 0 <= k < ranges@.len() ==> st.chunks[k] == (ranges@[k].0 as int, ranges@[k].1 as int),
            st.width == width,
            st.start == start,
            st.opp_width == opp_width,
            match opp {
                Some(o) => st.opp == Some(o as int),
                None => st.opp is None,
            },
            start <= idx,
            forall|k: int| 0 <= k < ranges@.len() ==> (#[trigger] ranges@[k]).0 <= ranges@[k].1 <= start,
            opp matches Some(o) ==> start <= o <= idx,
        decreases n - idx,
    {
        assert(segs@.map_values(|s: String| s@)[idx as int] == segs@[idx as int]@);
        let w = visible_width(segs[idx].as_str());
        let is_ws = is_whitespace_segment(segs[idx].as_str());
        if (width as u128) + (w as u128) > max_width as u128 {
            match opp {
                Some(o) => {
                    ranges.push((start, o));
                    start = o;
                    width = if opp_width < width {
                        width - opp_width
                    } else {
                        0
                    };
                },
                None => {
                    if start < idx {
                        ranges.push((start, idx));
                        start = idx;
                        width = 0;
                    }
                },
            }
            opp = None;
        }
        width = width.saturating_add(w);
        if is_ws && idx + 1 < n {
            assert(segs@.map_values(|s: String| s@)[idx + 1] == segs@[idx + 1]@);
            if !is_whitespace_segment(segs[idx + 1].as_str()) {
                opp = Some(idx + 1);
                opp_width = width;
            }
        }
        proof {
            st = wrap_step(g, max_width as nat, st, idx as int);
        }
        idx += 1;
    }
    ranges.push((start, n));
    let ghost all = chunk_ranges(g, max_width as nat);
    assert(all.len() == ranges@.len());
    assert forall|k: int| 0 <= k < ranges@.len() implies all[k] == (ranges@[k].0 as int, ranges@[k].1 as int) by {}
    // byte offsets of every segment boundary
    let mut offsets: Vec<usize> = vec![0];
    let mut k: usize = 0;
    assert(g.subrange(0, 0).flatten() =~= Seq::<char>::empty());
    while k < n
        invariant
            n == segs@.len(),
            segs@.map_values(|s: String| s@) == g,
            k <= n,
            offsets@.len() == k + 1,
            forall|q: int| 0 <= q <= k ==> #[trigger] offsets@[q] == seg_offset(g, q),
        decreases n - k,
    {
        let b = utf8_length(chars_of(segs[k].as_str()).as_slice());
        let last = offsets[k];
        proof {
            assert(segs@.map_values(|s: String| s@)[k as int] == segs@[k as int]@);
            let pre = g.subrange(0, k as int);
            assert(g.subrange(0, k + 1 as int) =~= pre.push(g[k as int]));
            pre.lemma_flatten_push(g[k as int]);
            lemma_utf8_bytes_concat(pre.flatten(), g[k as int]);
        }
        offsets.push(last.saturating_add(b));
        k += 1;
    }
    let mut out: Vec<TextChunk> = Vec::new();
    let mut c: usize = 0;
    while c < ranges.len()
        invariant
            n == segs@.len(),
            segs@.map_values(|s: String| s@) == g,
            offsets@.len() == n + 1,
            forall|q: int| 0 <= q <= n ==> #[trigger] offsets@[q] == seg_offset(g, q),
            all == chunk_ranges(g, max_width as nat),
            all.len() == ranges@.len(),
            forall|q: int| 0 <= q < ranges@.len() ==> all[q] == (ranges@[q].0 as int, ranges@[q].1 as int),
            forall|q: int| 0 <= q < ranges@.len() ==> (#[trigger] ranges@[q]).0 <= ranges@[q].1 <= n,
            c <= ranges@.len(),
            out@.len() == c,
            forall|q: int| 0 <= q < c ==> #[trigger] chunk_view(out@[q]) == (
                g.subrange(all[q].0, all[q].1).flatten(),
                seg_offset(g, all[q].0),
                seg_offset(g, all[q].1),
            ),
        decreases ranges@.len() - c,
    {
        let (s, e) = ranges[c];
        let mut text: Vec<char> = Vec::new();
        let mut j = s;
        assert(g.subrange(s as int, s as int).flatten() =~= Seq::<char>::empty());
        while j < e
            invariant
                n == segs@.len(),
                segs@.map_values(|s: String| s@) == g,
                s <= j <= e <= n,
                text@ == g.subrange(s as int, j as int).flatten(),
            decreases e - j,
        {
            proof {
                assert(segs@.map_values(|s: String| s@)[j as int] == segs@[j as int]@);
                let pre = g.subrange(s as int, j as int);
                assert(g.subrange(s as int, j + 1 as int) =~= pre.push(g[j as int]));
                pre.lemma_flatten_push(g[j as int]);
            }
            extend_chars(&mut text, chars_of(segs[j].as_str()).as_slice());
            j += 1;
        }
        out.push(TextChunk { text: string_of(text.as_slice()), start_index: offsets[s], end_index: offsets[e] });
        c += 1;
    }
    assert(out@.map_values(|c: TextChunk| chunk_view(c)) =~= wrap_clusters(g, max_width as nat));
    out
}

/// Splits a line into chunks no wider than `max_width`, breaking after whitespace where
/// possible and inside words otherwise; graphemes are never split.
pub fn word_wrap_line(line: &str, max_width: usize) -> (r: Vec<TextChunk>)
    ensures
        r@.map_values(|c: TextChunk| chunk_view(c)) == word_wrap(line@, max_width as nat),
        max_width > 0 ==> chunks_tile(r@.map_values(|c: TextChunk| chunk_view(c)), line@),
{
    if line.is_empty() || max_width == 0 {
        let r = vec![TextChunk { text: String::new(), start_index: 0, end_index: 0 }];
        assert(r@.map_values(|c: TextChunk| chunk_view(c)) =~= word_wrap(line@, max_width as nat));
        proof {
            if max_width > 0 {
                lemma_word_wrap_tiles(line@, max_width as nat);
            }
        }
        return r;
    }
    let line_width = visible_width(line);
    if line_width <= max_width {
        let v = chars_of(line);
        let r = vec![TextChunk { text: line.to_owned(), start_index: 0, end_index: utf8_length(v.as_slice()) }];
        assert(r@.map_values(|c: TextChunk| chunk_view(c)) =~= word_wrap(line@, max_width as nat));
        proof {
            lemma_word_wrap_tiles(line@, max_width as nat);
        }
        return r;
    }
    let segs = grapheme_segments(line);
    proof {
        lemma_word_wrap_tiles(line@, max_width as nat);
    }
    let out = wrap_segments(&segs, max_width);
    assert(out@.map_values(|c: TextChunk| chunk_view(c)) =~= word_wrap(line@, max_width as nat));
    out
}

/// `"[paste #"`, which opens a paste marker.
pub open spec fn marker_open() -> Seq<char> {
    seq!['[', 'p', 'a', 's', 't', 'e', ' ', '#']
}

pub open spec fn lines_word() -> Seq<char> {
    seq![' ', 'l', 'i', 'n', 'e', 's']
}

pub open spec fn chars_word() -> Seq<char> {
    seq![' ', 'c', 'h', 'a', 'r', 's']
}

pub open spec fn is_digit_char(c: char) -> bool {
    '0' <= c && c <= '9'
}

/// Index after the run of ASCII digits that starts at `i`.
pub open spec fn digits_end_at(s: Seq<char>, i: int) -> int
    decreases s.len() - i,
{
    if i < 0 || i >= s.len() || !is_digit_char(s[i]) {
        i
    } else {
        digits_end_at(s, i + 1)
    }
}

/// A number as `u32`, saturating.
pub open spec fn sat32(n: nat) -> u32 {
    if n <= u32::MAX {
        n as u32
    } else {
        u32::MAX
    }
}

/// Value of the digits `s[i..e]`, saturating at `u32::MAX` after each step.
pub open spec fn digits_number(s: Seq<char>, i: int, e: int) -> u32
    decreases e - i,
{
    if e <= i {
        0
    } else {
        sat32((sat32((digits_number(s, i, e - 1) as nat) * 10) as nat + (s[e - 1] as u32 - 0x30) as nat) as nat)
    }
}

/// `p` occurs in `s` at `i`.
pub open spec fn starts_at(s: Seq<char>, i: int, p: Seq<char>) -> bool {
    0 <= i && i + p.len() <= s.len() && s.subrange(i, i + p.len()) == p
}

/// Where the marker's optional suffix (` +N lines` or ` N chars`) ends when read from `c`,
/// or `None` when a suffix starts but is malformed.
pub open spec fn suffix_end(s: Seq<char>, c: int) -> Option<int> {
    if c < s.len() && s[c] == ' ' {
        if c + 1 < s.len() && s[c + 1] == '+' {
            let e = digits_end_at(s, c + 2);
            if e == c + 2 || !starts_at(s, e, lines_word()) {
                None
            } else {
                Some(e + 6)
            }
        } else {
            let e = digits_end_at(s, c + 1);
            if e == c + 1 || !starts_at(s, e, chars_word()) {
                None
            } else {
                Some(e + 6)
            }
        }
    } else {
        Some(c)
    }
}

/// What starts at `i`: a complete marker `(id, index of its ']')`, a marker opening without a
/// number, or neither.
pub enum MarkerScan {
    Marker(u32, int),
    NoNumber,
    Plain,
}

pub open spec fn scan_marker(s: Seq<char>, i: int) -> MarkerScan {
    if !starts_at(s, i, marker_open()) {
        MarkerScan::Plain
    } else {
        let e = digits_end_at(s, i + 8);
        if e == i + 8 {
            MarkerScan::NoNumber
        } else {
            match suffix_end(s, e) {
                Some(c) => if c < s.len() && s[c] == ']' {
                    MarkerScan::Marker(digits_number(s, i + 8, e), c)
                } else {
                    MarkerScan::Plain
                },
                None => MarkerScan::Plain,
            }
        }
    }
}

/// The stored content of paste `id` (the first entry with that id).
pub open spec fn paste_lookup(pastes: Seq<(u32, Seq<char>)>, id: u32) -> Option<Seq<char>>
    decreases pastes.len(),
{
    if pastes.len() == 0 {
        None
    } else if pastes[0].0 == id {
        Some(pastes[0].1)
    } else {
        paste_lookup(pastes.drop_first(), id)
    }
}

/// `s[i..]` with every complete marker of a stored paste replaced by the paste's content.
pub open spec fn expand_markers_from(s: Seq<char>, i: int, pastes: Seq<(u32, Seq<char>)>) -> Seq<char>
    decreases s.len() - i,
{
    if i < 0 || i >= s.len() {
        Seq::empty()
    } else {
        match scan_marker(s, i) {
            MarkerScan::Marker(id, c) => if c < i {
                Seq::empty()
            } else {
                let piece = match paste_lookup(pastes, id) {
                    Some(content) => content,
                    None => s.subrange(i, c + 1),
                };
                piece + expand_markers_from(s, c + 1, pastes)
            },
            MarkerScan::NoNumber => marker_open() + expand_markers_from(s, i + 8, pastes),
            MarkerScan::Plain => seq![s[i]] + expand_markers_from(s, i + 1, pastes),
        }
    }
}

proof fn lemma_digits_end_at(s: Seq<char>, i: int)
    requires
        0 <= i <= s.len(),
    ensures
        i <= digits_end_at(s, i) <= s.len(),
        forall|k: int| i <= k < digits_end_at(s, i) ==> is_digit_char(#[trigger] s[k]),
    decreases s.len() - i,
{
    if i < s.len() && is_digit_char(s[i]) {
        lemma_digits_end_at(s, i + 1);
    }
}

fn digits_end_exec(s: &[char], i: usize) -> (r: usize)
    requires
        i <= s@.len(),
    ensures
        r == digits_end_at(s@, i as int),
        i <= r <= s@.len(),
{
    proof {
        lemma_digits_end_at(s@, i as int);
    }
    let mut k = i;
    while k < s.len() && '0' <= s[k] && s[k] <= '9'
        invariant
            i <= k <= s@.len(),
            digits_end_at(s@, i as int) == digits_end_at(s@, k as int),
        decreases s@.len() - k,
    {
        k += 1;
    }
    k
}

fn digits_value_exec(s: &[char], i: usize, e: usize) -> (r: u32)
    requires
        i <= e <= s@.len(),
        forall|k: int| i <= k < e ==> is_digit_char(#[trigger] s@[k]),
    ensures
        r == digits_number(s@, i as int, e as int),
{
    let mut k = i;
    let mut v: u32 = 0;
    while k < e
        invariant
            i <= k <= e <= s@.len(),
            forall|q: int| i <= q < e ==> is_digit_char(#[trigger] s@[q]),
            v == digits_number(s@, i as int, k as int),
        decreases e - k,
    {
        let d = s[k] as u32 - 0x30;
        let t: u32 = if v > 429496729 {
            u32::MAX
        } else {
            v * 10
        };
        v = t.saturating_add(d);
        k += 1;
    }
    v
}

fn starts_at_exec(s: &[char], i: usize, p: &[char]) -> (r: bool)
    ensures
        r == starts_at(s@, i as int, p@),
{
    if i > s.len() || p.len() > s.len() - i {
        return false;
    }
    let n = s.len();
    let mut k: usize = 0;
    while k < p.len()
        invariant
            n == s@.len(),
            i + p@.len() <= s@.len(),
            k <= p@.len(),
            forall|q: int| 0 <= q < k ==> s@[i + q] == p@[q],
        decreases p@.len() - k,
    {
        if s[i + k] != p[k] {
            assert(s@.subrange(i as int, i + p@.len())[k as int] != p@[k as int]);
            return false;
        }
        k += 1;
    }
    assert(s@.subrange(i as int, i + p@.len()) =~= p@);
    true
}

fn suffix_end_exec(s: &[char], c: usize) -> (r: Option<usize>)
    requires
        c <= s@.len(),
    ensures
        match suffix_end(s@, c as int) {
            Some(e) => r == Some(e as usize) && c <= e,
            None => r is None,
        },
{
    let lines = [' ', 'l', 'i', 'n', 'e', 's'];
    let chars = [' ', 'c', 'h', 'a', 'r', 's'];
    assert(lines@ =~= lines_word());
    assert(chars@ =~= chars_word());
    if c < s.len() && s[c] == ' ' {
        if c + 1 < s.len() && s[c + 1] == '+' {
            let e = digits_end_exec(s, c + 2);
            if e == c + 2 || !starts_at_exec(s, e, &lines) {
                None
            } else {
                Some(e + 6)
            }
        } else {
            let e = digits_end_exec(s, c + 1);
            if e == c + 1 || !starts_at_exec(s, e, &chars) {
                None
            } else {
                Some(e + 6)
            }
        }
    } else {
        Some(c)
    }
}

fn lookup_paste(pastes: &[(u32, String)], id: u32) -> (r: Option<String>)
    ensures
        match paste_lookup(pastes@.map_values(|p: (u32, String)| (p.0, p.1@)), id) {
            Some(c) => r matches Some(x) && x@ == c,
            None => r is None,
        },
{
    let ghost pv = pastes@.map_values(|p: (u32, String)| (p.0, p.1@));
    assert(pv.subrange(0, pv.len() as int) =~= pv);
    let mut i: usize = 0;
    while i < pastes.len()
        invariant
            i <= pastes@.len(),
            pv == pastes@.map_values(|p: (u32, String)| (p.0, p.1@)),
            paste_lookup(pv, id) == paste_lookup(pv.subrange(i as int, pv.len() as int), id),
        decreases pastes@.len() - i,
    {
        let ghost rest = pv.subrange(i as int, pv.len() as int);
        assert(rest.drop_first() =~= pv.subrange(i + 1, pv.len() as int));
        if pastes[i].0 == id {
            return Some(pastes[i].1.clone());
        }
        i += 1;
    }
    None
}

/// Replaces every paste marker (`[paste #N]`, `[paste #N +L lines]`, `[paste #N C chars]`)
/// whose paste is stored by that paste's content; other markers and text stay as they are.
pub fn replace_paste_markers(input: &str, pastes: &[(u32, String)]) -> (r: String)
    ensures
        r@ == expand_markers_from(input@, 0, pastes@.map_values(|p: (u32, String)| (p.0, p.1@))),
{
    let ghost pv = pastes@.map_values(|p: (u32, String)| (p.0, p.1@));
    let s = chars_of(input);
    let open = ['[', 'p', 'a', 's', 't', 'e', ' ', '#'];
    assert(open@ =~= marker_open());
    let mut out: Vec<char> = Vec::new();
    let mut idx: usize = 0;
    while idx < s.len()
        invariant
            s@ == input@,
            open@ == marker_open(),
            pv == pastes@.map_values(|p: (u32, String)| (p.0, p.1@)),
            idx <= s@.len(),
            out@ + expand_markers_from(s@, idx as int, pv) == expand_markers_from(s@, 0, pv),
        decreases s@.len() - idx,
    {
        let ghost rest = expand_markers_from(s@, idx as int, pv);
        if starts_at_exec(s.as_slice(), idx, &open) {
            let e = digits_end_exec(s.as_slice(), idx + 8);
            if e == idx + 8 {
                extend_chars(&mut out, &open);
                assert(out@ + expand_markers_from(s@, idx + 8, pv) =~= (out@.subrange(0, out@.len() - 8) + rest));
                idx = idx + 8;
                continue;
            }
            match suffix_end_exec(s.as_slice(), e) {
                Some(c) => {
                    if c < s.len() && s[c] == ']' {
                        proof {
                            lemma_digits_end_at(s@, idx + 8);
                        }
                        let id = digits_value_exec(s.as_slice(), idx + 8, e);
                        let ghost before = out@;
                        match lookup_paste(pastes, id) {
                            Some(content) => {
                                extend_chars(&mut out, chars_of(content.as_str()).as_slice());
                            },
                            None => {
                                let piece = slice_chars_of(s.as_slice(), idx, c + 1);
                                extend_chars(&mut out, piece.as_slice());
                            },
                        }
                        assert(out@ + expand_markers_from(s@, c + 1, pv) =~= before + rest);
                        idx = c + 1;
                        continue;
                    }
                },
                None => {},
            }
        }
        let ghost before = out@;
        out.push(s[idx]);
        assert(out@ + expand_markers_from(s@, idx + 1, pv) =~= before + rest);
        idx += 1;
    }
    assert(out@ + expand_markers_from(s@, idx as int, pv) =~= out@);
    string_of(out.as_slice())
}

fn slice_chars_of(v: &[char], start: usize, end: usize) -> (r: Vec<char>)
    requires
        start <= end <= v@.len(),
    ensures
        r@ == v@.subrange(start as int, end as int),
{
    crate::chars::slice_chars(v, start, end)
}

} // verus!

//! Single-line text input with horizontal scrolling.

use vstd::prelude::*;

use crate::callbacks::{Notify, ValueHandler};
use crate::chars::{chars_of, char_utf8_len, extend_chars, repeat_char, slice_chars, spaces, string_of, utf8_bytes, utf8_len, utf8_length};
use crate::component::{Component, Focusable};
use crate::cursor::CursorPos;
use crate::keys::{bound, parse_events, parse_input_events, EditorAction, EditorKeybindingsHandle, EventView, InputEvent, KeyBinding, str_eq};
use crate::text::{
    grapheme_clusters, grapheme_segments, is_punctuation_segment, is_whitespace_segment,
    measure_chars, punct_segment, sat, text_width, ws_segment, ScanMode,
};

verus! {

/// Classes of grapheme segments used by word motions.
#[derive(Clone, Copy, PartialEq, Eq, Structural)]
pub enum SegClass {
    Space,
    Punct,
    Word,
}

pub open spec fn seg_is(k: SegClass, g: Seq<char>) -> bool {
    match k {
        SegClass::Space => ws_segment(g),
        SegClass::Punct => punct_segment(g),
        SegClass::Word => !ws_segment(g) && !punct_segment(g),
    }
}

/// How many of the segments `g[..n]`, counted from the end, are of class `k`.
pub open spec fn trail(g: Seq<Seq<char>>, n: int, k: SegClass) -> nat
    decreases n,
{
    if n <= 0 || n > g.len() {
        0
    } else if seg_is(k, g[n - 1]) {
        1 + trail(g, n - 1, k)
    } else {
        0
    }
}

/// How many of the segments from `g[i]` on are of class `k`.
pub open spec fn lead(g: Seq<Seq<char>>, i: int, k: SegClass) -> nat
    decreases g.len() - i,
{
    if i < 0 || i >= g.len() {
        0
    } else if seg_is(k, g[i]) {
        1 + lead(g, i + 1, k)
    } else {
        0
    }
}

/// Segments skipped by a move one word back: trailing whitespace, then either a run of
/// punctuation or a run of word characters.
pub open spec fn word_back_count(g: Seq<Seq<char>>) -> nat {
    let a = trail(g, g.len() as int, SegClass::Space);
    let m = g.len() - a;
    if m > 0 && punct_segment(g[m - 1]) {
        a + trail(g, m, SegClass::Punct)
    } else {
        a + trail(g, m, SegClass::Word)
    }
}

/// Segments skipped by a move one word forward.
pub open spec fn word_fwd_count(g: Seq<Seq<char>>) -> nat {
    let a = lead(g, 0, SegClass::Space);
    if a < g.len() && punct_segment(g[a as int]) {
        a + lead(g, a as int, SegClass::Punct)
    } else {
        a + lead(g, a as int, SegClass::Word)
    }
}

pub open spec fn graphemes_before(v: Seq<char>, c: int) -> Seq<Seq<char>> {
    grapheme_clusters(v.subrange(0, c))
}

pub open spec fn graphemes_after(v: Seq<char>, c: int) -> Seq<Seq<char>> {
    grapheme_clusters(v.subrange(c, v.len() as int))
}

/// Cursor after moving one grapheme left.
pub open spec fn left_target(v: Seq<char>, c: int) -> int {
    if c <= 0 {
        c
    } else {
        c - graphemes_before(v, c).last().len()
    }
}

/// Cursor after moving one grapheme right.
pub open spec fn right_target(v: Seq<char>, c: int) -> int {
    if c >= v.len() {
        c
    } else {
        c + graphemes_after(v, c).first().len()
    }
}

/// Cursor after moving one word left.
pub open spec fn word_left_target(v: Seq<char>, c: int) -> int {
    let g = graphemes_before(v, c);
    g.subrange(0, g.len() - word_back_count(g)).flatten().len() as int
}

/// Cursor after moving one word right.
pub open spec fn word_right_target(v: Seq<char>, c: int) -> int {
    let g = graphemes_after(v, c);
    c + g.subrange(0, word_fwd_count(g) as int).flatten().len()
}

/// Value and cursor after inserting `t` at the cursor.
pub open spec fn insert_at(v: Seq<char>, c: int, t: Seq<char>) -> (Seq<char>, int) {
    (v.subrange(0, c) + t + v.subrange(c, v.len() as int), c + t.len())
}

/// Pasted text with line breaks removed.
pub open spec fn strip_breaks(t: Seq<char>) -> Seq<char> {
    t.filter(|ch: char| ch != '\r' && ch != '\n')
}

pub open spec fn shift_enter() -> Seq<char> {
    seq!['s', 'h', 'i', 'f', 't', '+', 'e', 'n', 't', 'e', 'r']
}

/// Value and cursor after a key press; cancel and submit leave both unchanged.
pub open spec fn key_step(kb: Seq<KeyBinding>, v: Seq<char>, c: int, k: Seq<char>) -> (Seq<char>, int) {
    if bound(kb, k, EditorAction::SelectCancel) || bound(kb, k, EditorAction::Submit) || k
        == shift_enter() {
        (v, c)
    } else if bound(kb, k, EditorAction::DeleteCharBackward) {
        if c > 0 {
            let t = left_target(v, c);
            (v.subrange(0, t) + v.subrange(c, v.len() as int), t)
        } else {
            (v, c)
        }
    } else if bound(kb, k, EditorAction::DeleteCharForward) {
        if c < v.len() {
            let t = right_target(v, c);
            (v.subrange(0, c) + v.subrange(t, v.len() as int), c)
        } else {
            (v, c)
        }
    } else if bound(kb, k, EditorAction::DeleteWordBackward) {
        if c == 0 {
            (v, c)
        } else {
            let t = word_left_target(v, c);
            (v.subrange(0, t) + v.subrange(c, v.len() as int), t)
        }
    } else if bound(kb, k, EditorAction::DeleteToLineStart) {
        (v.subrange(c, v.len() as int), 0)
    } else if bound(kb, k, EditorAction::DeleteToLineEnd) {
        (v.subrange(0, c), c)
    } else if bound(kb, k, EditorAction::CursorLeft) {
        (v, left_target(v, c))
    } else if bound(kb, k, EditorAction::CursorRight) {
        (v, right_target(v, c))
    } else if bound(kb, k, EditorAction::CursorLineStart) {
        (v, 0)
    } else if bound(kb, k, EditorAction::CursorLineEnd) {
        (v, v.len() as int)
    } else if bound(kb, k, EditorAction::CursorWordLeft) {
        (v, if c == 0 { c } else { word_left_target(v, c) })
    } else if bound(kb, k, EditorAction::CursorWordRight) {
        (v, if c >= v.len() { c } else { word_right_target(v, c) })
    } else {
        (v, c)
    }
}

/// Value and cursor after an input event.
pub open spec fn event_step(kb: Seq<KeyBinding>, v: Seq<char>, c: int, e: EventView) -> (Seq<char>, int) {
    match e {
        EventView::Text(t) => insert_at(v, c, t),
        EventView::Paste(t) => insert_at(v, c, strip_breaks(t)),
        EventView::Key(k) => key_step(kb, v, c, k),
        EventView::Release(k) => key_step(kb, v, c, k),
    }
}

/// Value and cursor after the events `evs`, one after the other.
pub open spec fn events_step(kb: Seq<KeyBinding>, v: Seq<char>, c: int, evs: Seq<EventView>) -> (Seq<char>, int)
    decreases evs.len(),
{
    if evs.len() == 0 {
        (v, c)
    } else {
        let (v1, c1) = events_step(kb, v, c, evs.drop_last());
        event_step(kb, v1, c1, evs.last())
    }
}

/// Flattened length of the first `m` segments.
fn prefix_len(g: &Vec<String>, m: usize) -> (r: usize)
    requires
        m <= g@.len(),
        g@.map_values(|x: String| x@).flatten().len() <= usize::MAX,
    ensures
        r == g@.map_values(|x: String| x@).subrange(0, m as int).flatten().len(),
{
    let ghost gv = g@.map_values(|x: String| x@);
    let mut acc: usize = 0;
    let mut i: usize = 0;
    assert(gv.subrange(0, 0) =~= Seq::<Seq<char>>::empty());
    while i < m
        invariant
            i <= m <= g@.len(),
            gv == g@.map_values(|x: String| x@),
            gv.flatten().len() <= usize::MAX,
            acc == gv.subrange(0, i as int).flatten().len(),
        decreases m - i,
    {
        proof {
            assert(gv.subrange(0, i + 1 as int) =~= gv.subrange(0, i as int).push(gv[i as int]));
            gv.subrange(0, i as int).lemma_flatten_push(gv[i as int]);
            vstd::seq_lib::lemma_flatten_concat(gv.subrange(0, i + 1 as int), gv.subrange(i + 1 as int, gv.len() as int));
            assert(gv.subrange(0, i + 1 as int) + gv.subrange(i + 1 as int, gv.len() as int) =~= gv);
        }
        let n = chars_of(g[i].as_str()).len();
        acc = acc + n;
        i += 1;
    }
    acc
}

fn seg_class_is(k: SegClass, g: &str) -> (r: bool)
    ensures
        r == seg_is(k, g@),
{
    match k {
        SegClass::Space => is_whitespace_segment(g),
        SegClass::Punct => is_punctuation_segment(g),
        SegClass::Word => !is_whitespace_segment(g) && !is_punctuation_segment(g),
    }
}

/// Number of segments of class `k` that end `g[..n]`.
fn count_back(g: &Vec<String>, n: usize, k: SegClass) -> (r: usize)
    requires
        n <= g@.len(),
    ensures
        r == trail(g@.map_values(|x: String| x@), n as int, k),
        r <= n,
{
    let ghost gv = g@.map_values(|x: String| x@);
    let mut i = n;
    while i > 0 && seg_class_is(k, g[i - 1].as_str())
        invariant
            i <= n <= g@.len(),
            gv == g@.map_values(|x: String| x@),
            trail(gv, n as int, k) == (n - i) + trail(gv, i as int, k),
        decreases i,
    {
        assert(gv[i - 1] == g@[i - 1]@);
        i -= 1;
    }
    proof {
        if i > 0 {
            assert(gv[i - 1] == g@[i - 1]@);
        }
    }
    n - i
}

/// Number of segments of class `k` from `g[i0]` on.
fn count_fwd(g: &Vec<String>, i0: usize, k: SegClass) -> (r: usize)
    requires
        i0 <= g@.len(),
    ensures
        r == lead(g@.map_values(|x: String| x@), i0 as int, k),
        i0 + r <= g@.len(),
{
    let ghost gv = g@.map_values(|x: String| x@);
    let mut i = i0;
    while i < g.len() && seg_class_is(k, g[i].as_str())
        invariant
            i0 <= i <= g@.len(),
            gv == g@.map_values(|x: String| x@),
            lead(gv, i0 as int, k) == (i - i0) + lead(gv, i as int, k),
        decreases g@.len() - i,
    {
        assert(gv[i as int] == g@[i as int]@);
        i += 1;
    }
    proof {
        if i < g@.len() {
            assert(gv[i as int] == g@[i as int]@);
        }
    }
    i - i0
}

pub proof fn lemma_flatten_split(g: Seq<Seq<char>>, m: int)
    requires
        0 <= m <= g.len(),
    ensures
        g.flatten() =~= g.subrange(0, m).flatten() + g.subrange(m, g.len() as int).flatten(),
{
    vstd::seq_lib::lemma_flatten_concat(g.subrange(0, m), g.subrange(m, g.len() as int));
    assert(g.subrange(0, m) + g.subrange(m, g.len() as int) =~= g);
}


pub open spec fn inverse_on() -> Seq<char> {
    seq!['\x1b', '[', '7', 'm']
}

pub open spec fn inverse_off() -> Seq<char> {
    seq!['\x1b', '[', '2', '7', 'm']
}

/// The text of the visible window with the cursor cell shown in inverse video.
pub open spec fn cursor_text(v: Seq<char>, c: int, avail: int) -> Seq<char> {
    let (start, end, cd0) = byte_window(v, c, avail);
    let vis = v.subrange(start, end);
    let cd = if cd0 < vis.len() {
        cd0
    } else {
        vis.len() as int
    };
    let tail = vis.subrange(cd, vis.len() as int);
    let g = grapheme_clusters(tail);
    let (at, after) = if tail.len() == 0 {
        (seq![' '], Seq::<char>::empty())
    } else {
        (g[0], tail.subrange(g[0].len() as int, tail.len() as int))
    };
    vis.subrange(0, cd) + inverse_on() + at + inverse_off() + after
}

/// The part of the window left of the cursor.
pub open spec fn before_cursor(v: Seq<char>, c: int, avail: int) -> Seq<char> {
    let (start, end, cd0) = byte_window(v, c, avail);
    let vis = v.subrange(start, end);
    let cd = if cd0 < vis.len() {
        cd0
    } else {
        vis.len() as int
    };
    vis.subrange(0, cd)
}

/// The rendered line: the prompt, the window with the cursor, padding to `avail` cells,
/// where `avail` is the width less the prompt's length in bytes; just the prompt when nothing
/// is left.
pub open spec fn input_line(v: Seq<char>, c: int, prompt: Seq<char>, width: int) -> Seq<char> {
    let avail = width - utf8_bytes(prompt);
    if avail <= 0 {
        prompt
    } else {
        let t = cursor_text(v, c, avail);
        let w = sat(text_width(t));
        prompt + t + spaces(if w < avail {
            (avail - w) as nat
        } else {
            0
        })
    }
}

/// Where the hardware cursor goes after rendering: on the cursor cell when focused.
pub open spec fn input_cursor(v: Seq<char>, c: int, prompt: Seq<char>, width: int, focused: bool) -> Option<CursorPos> {
    let avail = width - utf8_bytes(prompt);
    if avail <= 0 || !focused {
        None
    } else {
        Some(CursorPos {
            row: 0,
            col: sat((sat(text_width(prompt)) + sat(text_width(before_cursor(v, c, avail)))) as nat),
        })
    }
}

/// Segments of `v[a..b]`.
fn graphemes_range(v: &[char], a: usize, b: usize) -> (g: Vec<String>)
    requires
        a <= b <= v@.len(),
    ensures
        g@.map_values(|x: String| x@) == grapheme_clusters(v@.subrange(a as int, b as int)),
        g@.map_values(|x: String| x@).flatten() == v@.subrange(a as int, b as int),
        forall|i: int| 0 <= i < g@.len() ==> (#[trigger] g@[i])@.len() > 0,
{
    let part = slice_chars(v, a, b);
    let s = string_of(part.as_slice());
    grapheme_segments(s.as_str())
}

/// Calls the handler, if there is one; says whether there was.
pub fn fire_notify(handler: &mut Option<Box<dyn Notify>>) -> (r: bool)
    ensures
        r == (*old(handler) is Some),
        (*final(handler) is Some) == (*old(handler) is Some),
{
    match handler {
        Some(h) => {
            h.call();
            true
        },
        None => false,
    }
}

/// Calls the handler with `value`, if there is one; says whether there was.
pub fn fire_value(handler: &mut Option<Box<dyn ValueHandler>>, value: String) -> (r: bool)
    ensures
        r == (*old(handler) is Some),
        (*final(handler) is Some) == (*old(handler) is Some),
{
    match handler {
        Some(h) => {
            h.call(value);
            true
        },
        None => false,
    }
}

/// The byte offset of character position `c` in `v` (saturating at `usize::MAX`).
pub open spec fn byte_offset(v: Seq<char>, c: int) -> nat {
    crate::text::sat(utf8_bytes(v.take(c))) as nat
}

/// The last character position of `v`, from `k` on, whose byte offset is at most `b`: the
/// largest character boundary at or before byte `b`.
pub open spec fn boundary_at_or_before(v: Seq<char>, b: nat, k: nat) -> nat
    decreases v.len() - k,
{
    if k < v.len() && utf8_bytes(v.take(k + 1 as int)) <= b {
        boundary_at_or_before(v, b, k + 1)
    } else {
        k
    }
}

/// The first character position of `v`, from `k` on, whose byte offset is at least `b`: the
/// smallest character boundary at or after byte `b`.
pub open spec fn boundary_at_or_after(v: Seq<char>, b: nat, k: nat) -> nat
    decreases v.len() - k,
{
    if k < v.len() && byte_offset(v, k as int) < b {
        boundary_at_or_after(v, b, k + 1)
    } else {
        k
    }
}

/// The last character position of `v`, from `k` on, whose byte offset is at most `b`.
pub open spec fn boundary_within(v: Seq<char>, b: nat, k: nat) -> nat
    decreases v.len() - k,
{
    if k < v.len() && byte_offset(v, (k + 1) as int) <= b {
        boundary_within(v, b, k + 1)
    } else {
        k
    }
}

/// The shown part of the value `v` with the cursor at character `c`, when `avail` cells are
/// left after the prompt, as the character range `(start, end)` and the cursor's place in it.
/// The window is chosen by bytes: the whole value when its byte length is below `avail`;
/// otherwise `avail` bytes (one less with the cursor at the end) from the start when the
/// cursor is in the first half of that, up to the end when it is in the last half, and else
/// starting half of them before the cursor; window edges move to character boundaries,
/// inwards.
pub open spec fn byte_window(v: Seq<char>, c: int, avail: int) -> (int, int, int) {
    let len = byte_offset(v, v.len() as int) as int;
    let cb = byte_offset(v, c) as int;
    if len < avail {
        (0, v.len() as int, c)
    } else {
        let scroll = if cb == len { avail - 1 } else { avail };
        let half = scroll / 2;
        if cb < half {
            let e = boundary_within(v, (if scroll < len { scroll } else { len }) as nat, 0) as int;
            (0, e, if c < e { c } else { e })
        } else if cb > len - half {
            let s = boundary_at_or_after(v, (if len > scroll { len - scroll } else { 0 }) as nat, 0) as int;
            (s, v.len() as int, if c >= s { c - s } else { 0 })
        } else {
            let s = boundary_at_or_after(v, (cb - half) as nat, 0) as int;
            let lim = byte_offset(v, s) as int + scroll;
            let e = boundary_within(v, (if lim < len { lim } else { len }) as nat, 0) as int;
            (s, e, if c >= s { c - s } else { 0 })
        }
    }
}

proof fn lemma_offset_step(v: Seq<char>, k: int)
    requires
        0 <= k < v.len(),
    ensures
        byte_offset(v, k + 1) == crate::text::sat((byte_offset(v, k) + utf8_len(v[k])) as nat),
        byte_offset(v, k) <= byte_offset(v, k + 1),
{
    assert(v.take(k + 1).drop_last() =~= v.take(k));
    assert(v.take(k + 1).last() == v[k]);
}

proof fn lemma_offset_mono(v: Seq<char>, j: int, k: int)
    requires
        0 <= j <= k <= v.len(),
    ensures
        byte_offset(v, j) <= byte_offset(v, k),
    decreases k - j,
{
    if j < k {
        lemma_offset_mono(v, j, k - 1);
        lemma_offset_step(v, k - 1);
    }
}

proof fn lemma_within_reaches(v: Seq<char>, b: nat, k: nat, s: nat)
    requires
        k <= s <= v.len(),
        byte_offset(v, s as int) <= b,
    ensures
        s <= boundary_within(v, b, k) <= v.len(),
    decreases v.len() - k,
{
    if k < s {
        lemma_offset_mono(v, (k + 1) as int, s as int);
        lemma_within_reaches(v, b, k + 1, s);
    } else if k < v.len() && byte_offset(v, (k + 1) as int) <= b {
        lemma_within_bound(v, b, k + 1);
    }
}

proof fn lemma_within_bound(v: Seq<char>, b: nat, k: nat)
    requires
        k <= v.len(),
    ensures
        k <= boundary_within(v, b, k) <= v.len(),
    decreases v.len() - k,
{
    if k < v.len() && byte_offset(v, (k + 1) as int) <= b {
        lemma_within_bound(v, b, k + 1);
    }
}

proof fn lemma_after_bound(v: Seq<char>, b: nat, k: nat)
    requires
        k <= v.len(),
    ensures
        k <= boundary_at_or_after(v, b, k) <= v.len(),
        boundary_at_or_after(v, b, k) < v.len() ==> byte_offset(v, boundary_at_or_after(v, b, k) as int) >= b,
    decreases v.len() - k,
{
    if k < v.len() && byte_offset(v, k as int) < b {
        lemma_after_bound(v, b, k + 1);
    }
}

/// The byte offset of character `k` of `v`.
fn offset_exec(v: &Vec<char>, k: usize) -> (r: usize)
    requires
        k <= v@.len(),
    ensures
        r == byte_offset(v@, k as int),
{
    let head = slice_chars(v.as_slice(), 0, k);
    assert(head@ =~= v@.take(k as int));
    utf8_length(head.as_slice())
}

fn within_exec(v: &Vec<char>, b: usize) -> (r: usize)
    ensures
        r == boundary_within(v@, b as nat, 0),
        r <= v@.len(),
{
    let mut k: usize = 0;
    let mut acc: usize = 0;
    assert(v@.take(0) =~= Seq::<char>::empty());
    proof {
        lemma_within_bound(v@, b as nat, 0);
    }
    let mut done = false;
    while k < v.len() && !done
        invariant
            k <= v@.len(),
            acc == byte_offset(v@, k as int),
            boundary_within(v@, b as nat, 0) == boundary_within(v@, b as nat, k as nat),
            done ==> k < v@.len() && byte_offset(v@, (k + 1) as int) > b,
        decreases v@.len() - k + (if done { 0int } else { 1int }),
    {
        proof {
            lemma_offset_step(v@, k as int);
        }
        let next = acc.saturating_add(char_utf8_len(v[k]));
        if next <= b {
            acc = next;
            k += 1;
        } else {
            done = true;
        }
    }
    k
}

fn after_exec(v: &Vec<char>, b: usize) -> (r: usize)
    ensures
        r == boundary_at_or_after(v@, b as nat, 0),
        r <= v@.len(),
{
    let mut k: usize = 0;
    let mut acc: usize = 0;
    assert(v@.take(0) =~= Seq::<char>::empty());
    proof {
        lemma_after_bound(v@, b as nat, 0);
    }
    while k < v.len() && acc < b
        invariant
            k <= v@.len(),
            acc == byte_offset(v@, k as int),
            boundary_at_or_after(v@, b as nat, 0) == boundary_at_or_after(v@, b as nat, k as nat),
        decreases v@.len() - k,
    {
        proof {
            lemma_offset_step(v@, k as int);
        }
        acc = acc.saturating_add(char_utf8_len(v[k]));
        k += 1;
    }
    k
}

fn byte_window_exec(v: &Vec<char>, c: usize, avail: usize) -> (r: (usize, usize, usize))
    requires
        c <= v@.len(),
        avail > 0,
    ensures
        (r.0 as int, r.1 as int, r.2 as int) == byte_window(v@, c as int, avail as int),
        r.0 <= r.1 <= v@.len(),
{
    let n = v.len();
    let len = offset_exec(v, n);
    let cb = offset_exec(v, c);
    proof {
        lemma_offset_mono(v@, c as int, n as int);
    }
    if len < avail {
        return (0, n, c);
    }
    let scroll = if cb == len { avail - 1 } else { avail };
    let half = scroll / 2;
    if cb < half {
        let e = within_exec(v, if scroll < len { scroll } else { len });
        (0, e, if c < e { c } else { e })
    } else if cb > len - half {
        let s = after_exec(v, if len > scroll { len - scroll } else { 0 });
        (s, n, if c >= s { c - s } else { 0 })
    } else {
        let s = after_exec(v, cb - half);
        let off_s = offset_exec(v, s);
        let lim = off_s.saturating_add(scroll);
        let e = within_exec(v, if lim < len { lim } else { len });
        proof {
            lemma_after_bound(v@, (cb - half) as nat, 0);
            lemma_offset_mono(v@, s as int, n as int);
            lemma_within_reaches(v@, (if lim < len { lim } else { len }) as nat, 0, s as nat);
        }
        (s, e, if c >= s { c - s } else { 0 })
    }
}

/// A call of one of the input's handlers: submit with the value it was given, or escape.
pub enum InputNotice {
    Submitted(Seq<char>),
    Escaped,
}

/// The handler call that key `k` makes on value `v` with bindings `kb`: cancel calls the
/// escape handler, submit (or `shift+enter`) the submit handler with the value.
pub open spec fn key_notice(kb: Seq<KeyBinding>, v: Seq<char>, k: Seq<char>) -> Option<InputNotice> {
    if bound(kb, k, EditorAction::SelectCancel) {
        Some(InputNotice::Escaped)
    } else if bound(kb, k, EditorAction::Submit) || k == shift_enter() {
        Some(InputNotice::Submitted(v))
    } else {
        None
    }
}

/// The handler call that event `e` makes (text and pastes make none).
pub open spec fn event_notice(kb: Seq<KeyBinding>, v: Seq<char>, e: EventView) -> Option<InputNotice> {
    match e {
        EventView::Key(k) => key_notice(kb, v, k),
        EventView::Release(k) => key_notice(kb, v, k),
        _ => None,
    }
}

/// Where a key of the input goes: to the escape handler, to the submit handler with the
/// value, or to editing.
pub enum InputSignal {
    Escape,
    Submit(String),
    Edit,
}

/// Single-line input component with horizontal scrolling. The cursor is kept as a character
/// position, which is a character boundary of the value's bytes.
pub struct Input {
    value: String,
    cursor: usize,
    focused: bool,
    last_cursor_pos: Option<CursorPos>,
    prompt: String,
    keybindings: EditorKeybindingsHandle,
    on_submit: Option<Box<dyn ValueHandler>>,
    on_escape: Option<Box<dyn Notify>>,
    notices: Ghost<Seq<InputNotice>>,
}

impl Input {
    /// The handler calls made so far, in order.
    pub closed spec fn notices_view(&self) -> Seq<InputNotice> {
        self.notices@
    }

    /// Which handlers are set: submit, escape.
    pub closed spec fn handlers_set(&self) -> (bool, bool) {
        (self.on_submit is Some, self.on_escape is Some)
    }

    /// The calls made so far and which handlers are set.
    pub open spec fn hooks(&self) -> (Seq<InputNotice>, (bool, bool)) {
        (self.notices_view(), self.handlers_set())
    }

    /// The call that notice `n` makes: none when there is no notice or its handler is not set.
    pub open spec fn heard(&self, n: Option<InputNotice>) -> Seq<InputNotice> {
        match n {
            Some(InputNotice::Submitted(v)) => if self.handlers_set().0 {
                seq![InputNotice::Submitted(v)]
            } else {
                Seq::empty()
            },
            Some(InputNotice::Escaped) => if self.handlers_set().1 {
                seq![InputNotice::Escaped]
            } else {
                Seq::empty()
            },
            None => Seq::empty(),
        }
    }

    /// The cursor clamped to the value (equal to the cursor itself in every state that the
    /// public operations produce).
    pub open spec fn clamped_cursor(&self) -> int {
        if self.cursor_view() <= self.value_view().len() {
            self.cursor_view()
        } else {
            self.value_view().len() as int
        }
    }

    /// The current text.
    pub closed spec fn value_view(&self) -> Seq<char> {
        self.value@
    }

    /// The cursor, as a character index into the value.
    pub closed spec fn cursor_view(&self) -> int {
        self.cursor as int
    }

    pub closed spec fn prompt_view(&self) -> Seq<char> {
        self.prompt@
    }

    pub closed spec fn focused_view(&self) -> bool {
        self.focused
    }

    pub closed spec fn bindings_view(&self) -> Seq<KeyBinding> {
        self.keybindings.bindings@
    }

    pub closed spec fn last_cursor_view(&self) -> Option<CursorPos> {
        self.last_cursor_pos
    }

    /// The cursor lies within the value.
    pub open spec fn wf(&self) -> bool {
        0 <= self.cursor_view() <= self.value_view().len()
    }

    /// An empty input with the prompt `"> "`.
    pub fn new(keybindings: EditorKeybindingsHandle) -> (r: Self)
        ensures
            r.value_view() == Seq::<char>::empty(),
            r.cursor_view() == 0,
            r.prompt_view() == seq!['>', ' '],
            !r.focused_view(),
            r.bindings_view() == keybindings.bindings@,
            r.last_cursor_view() is None,
            r.wf(),
            r.hooks() == (Seq::<InputNotice>::empty(), (false, false)),
    {
        let prompt = string_of(&['>', ' ']);
        Input {
            value: String::new(),
            cursor: 0,
            focused: false,
            last_cursor_pos: None,
            prompt,
            keybindings,
            on_submit: None,
            on_escape: None,
            notices: Ghost(Seq::empty()),
        }
    }

    pub fn get_value(&self) -> (r: &str)
        ensures
            r@ == self.value_view(),
    {
        self.value.as_str()
    }

    /// The cursor position in characters.
    pub fn cursor(&self) -> (r: usize)
        ensures
            r == self.cursor_view(),
    {
        self.cursor
    }

    /// Replaces the value; the cursor keeps its byte offset, moved back to the nearest
    /// character boundary of the new value at or before it (the end when the value is shorter).
    pub fn set_value(&mut self, value: &str)
        ensures
            final(self).wf(),
            final(self).value_view() == value@,
            final(self).cursor_view() == boundary_at_or_before(
                value@,
                byte_offset(old(self).value_view(), old(self).clamped_cursor()),
                0,
            ),
            final(self).prompt_view() == old(self).prompt_view(),
            final(self).bindings_view() == old(self).bindings_view(),
            final(self).focused_view() == old(self).focused_view(),
            final(self).hooks() == old(self).hooks(),
    {
        let old_chars = chars_of(self.value.as_str());
        let c0 = if self.cursor > old_chars.len() {
            old_chars.len()
        } else {
            self.cursor
        };
        let before = slice_chars(old_chars.as_slice(), 0, c0);
        let b = utf8_length(before.as_slice());
        assert(before@ =~= old(self).value_view().take(c0 as int));
        let v = chars_of(value);
        let mut k: usize = 0;
        let mut acc: usize = 0;
        assert(v@.take(0) =~= Seq::<char>::empty());
        while k < v.len() && char_utf8_len(v[k]) <= b - acc
            invariant
                k <= v@.len(),
                acc <= b,
                acc == utf8_bytes(v@.take(k as int)),
                boundary_at_or_before(v@, b as nat, 0) == boundary_at_or_before(v@, b as nat, k as nat),
            decreases v@.len() - k,
        {
            assert(v@.take(k + 1 as int).drop_last() =~= v@.take(k as int));
            acc = acc + char_utf8_len(v[k]);
            k += 1;
        }
        proof {
            if k < v@.len() {
                assert(v@.take(k + 1 as int).drop_last() =~= v@.take(k as int));
            }
        }
        self.set_state(v.as_slice(), k);
    }

    pub fn set_prompt(&mut self, prompt: &str)
        ensures
            old(self).wf() ==> final(self).wf(),
            final(self).prompt_view() == prompt@,
            final(self).value_view() == old(self).value_view(),
            final(self).cursor_view() == old(self).cursor_view(),
            final(self).bindings_view() == old(self).bindings_view(),
            final(self).focused_view() == old(self).focused_view(),
            final(self).hooks() == old(self).hooks(),
    {
        self.prompt = string_of(chars_of(prompt).as_slice());
    }

    pub fn set_on_submit(&mut self, handler: Option<Box<dyn ValueHandler>>)
        ensures
            old(self).wf() ==> final(self).wf(),
            final(self).value_view() == old(self).value_view(),
            final(self).cursor_view() == old(self).cursor_view(),
            final(self).prompt_view() == old(self).prompt_view(),
            final(self).bindings_view() == old(self).bindings_view(),
            final(self).focused_view() == old(self).focused_view(),
            final(self).hooks() == (old(self).notices_view(), (handler is Some, old(self).handlers_set().1)),
    {
        self.on_submit = handler;
    }

    pub fn set_on_escape(&mut self, handler: Option<Box<dyn Notify>>)
        ensures
            old(self).wf() ==> final(self).wf(),
            final(self).value_view() == old(self).value_view(),
            final(self).cursor_view() == old(self).cursor_view(),
            final(self).prompt_view() == old(self).prompt_view(),
            final(self).bindings_view() == old(self).bindings_view(),
            final(self).focused_view() == old(self).focused_view(),
            final(self).hooks() == (old(self).notices_view(), (old(self).handlers_set().0, handler is Some)),
    {
        self.on_escape = handler;
    }

    /// Keeps the cursor within the value (it always is; the check costs nothing).
    fn clamp_cursor(&mut self)
        ensures
            final(self).wf(),
            final(self).value@ == old(self).value@,
            final(self).cursor as int == old(self).clamped_cursor(),
            final(self).prompt == old(self).prompt,
            final(self).keybindings == old(self).keybindings,
            final(self).focused == old(self).focused,
            final(self).hooks() == old(self).hooks(),
    {
        let n = chars_of(self.value.as_str()).len();
        if self.cursor > n {
            self.cursor = n;
        }
    }

    /// Replaces value and cursor.
    fn set_state(&mut self, v: &[char], c: usize)
        requires
            c <= v@.len(),
        ensures
            final(self).value@ == v@,
            final(self).cursor == c,
            final(self).wf(),
            final(self).prompt == old(self).prompt,
            final(self).keybindings == old(self).keybindings,
            final(self).focused == old(self).focused,
            final(self).hooks() == old(self).hooks(),
    {
        self.value = string_of(v);
        self.cursor = c;
    }

    fn insert_text(&mut self, text: &str)
        requires
            old(self).wf(),
        ensures
            (final(self).value@, final(self).cursor as int) == insert_at(
                old(self).value@,
                old(self).cursor as int,
                text@,
            ),
            final(self).wf(),
            final(self).prompt == old(self).prompt,
            final(self).keybindings == old(self).keybindings,
            final(self).focused == old(self).focused,
            final(self).hooks() == old(self).hooks(),
    {
        let t = chars_of(text);
        let v = chars_of(self.value.as_str());
        let c = self.cursor;
        if t.len() == 0 {
            assert(v@.subrange(0, c as int) + t@ + v@.subrange(c as int, v@.len() as int) =~= v@);
            return;
        }
        let mut next = slice_chars(v.as_slice(), 0, c);
        extend_chars(&mut next, t.as_slice());
        let tail = slice_chars(v.as_slice(), c, v.len());
        extend_chars(&mut next, tail.as_slice());
        let total = next.len();
        assert(c + t@.len() <= total);
        self.set_state(next.as_slice(), c + t.len());
    }

    fn handle_paste(&mut self, pasted: &str)
        requires
            old(self).wf(),
        ensures
            (final(self).value@, final(self).cursor as int) == insert_at(
                old(self).value@,
                old(self).cursor as int,
                strip_breaks(pasted@),
            ),
            final(self).wf(),
            final(self).prompt == old(self).prompt,
            final(self).keybindings == old(self).keybindings,
            final(self).focused == old(self).focused,
            final(self).hooks() == old(self).hooks(),
    {
        let v = chars_of(pasted);
        let mut cleaned: Vec<char> = Vec::new();
        let mut i: usize = 0;
        while i < v.len()
            invariant
                i <= v@.len(),
                v@ == pasted@,
                cleaned@ == strip_breaks(v@.subrange(0, i as int)),
            decreases v@.len() - i,
        {
            proof {
                let p = v@.subrange(0, i + 1 as int);
                assert(p.drop_last() =~= v@.subrange(0, i as int));
                p.drop_last().lemma_filter_push(v@[i as int], |ch: char| ch != '\r' && ch != '\n');
                assert(p =~= v@.subrange(0, i as int).push(v@[i as int]));
            }
            if v[i] != '\r' && v[i] != '\n' {
                cleaned.push(v[i]);
            }
            i += 1;
        }
        assert(v@.subrange(0, v@.len() as int) =~= v@);
        let s = string_of(cleaned.as_slice());
        self.insert_text(s.as_str());
    }

    /// Cursor after moving one grapheme left.
    pub(crate) fn left_of(v: &Vec<char>, c: usize) -> (r: usize)
        requires
            c <= v@.len(),
        ensures
            r == left_target(v@, c as int),
            r <= c,
    {
        if c == 0 {
            return 0;
        }
        let g = graphemes_range(v.as_slice(), 0, c);
        let ghost gv = g@.map_values(|x: String| x@);
        if g.len() == 0 {
            assert(gv.flatten() =~= Seq::<char>::empty());
            assert(v@.subrange(0, c as int).len() == c);
            return 0;
        }
        let n = g.len();
        proof {
            assert(gv =~= gv.drop_last().push(gv.last()));
            gv.drop_last().lemma_flatten_push(gv.last());
            assert(gv.last() == g@[n - 1]@);
        }
        let l = chars_of(g[n - 1].as_str()).len();
        c - l
    }

    /// Cursor after moving one grapheme right.
    pub(crate) fn right_of(v: &Vec<char>, c: usize) -> (r: usize)
        requires
            c <= v@.len(),
        ensures
            r == right_target(v@, c as int),
            c <= r <= v@.len(),
    {
        if c >= v.len() {
            return c;
        }
        let g = graphemes_range(v.as_slice(), c, v.len());
        let ghost gv = g@.map_values(|x: String| x@);
        if g.len() == 0 {
            assert(gv.flatten() =~= Seq::<char>::empty());
            assert(v@.subrange(c as int, v@.len() as int).len() > 0);
            return c;
        }
        proof {
            assert(gv.flatten() == gv.first() + gv.drop_first().flatten());
            assert(gv.first() == g@[0]@);
        }
        let l = chars_of(g[0].as_str()).len();
        c + l
    }

    /// Cursor after moving one word left (no move at the start).
    pub(crate) fn word_left_of(v: &Vec<char>, c: usize) -> (r: usize)
        requires
            c <= v@.len(),
        ensures
            r == (if c == 0 { 0 } else { word_left_target(v@, c as int) }),
            r <= c,
    {
        if c == 0 {
            return 0;
        }
        let g = graphemes_range(v.as_slice(), 0, c);
        let ghost gv = g@.map_values(|x: String| x@);
        let n = g.len();
        let a = count_back(&g, n, SegClass::Space);
        let m = n - a;
        let k = if m > 0 && is_punctuation_segment(g[m - 1].as_str()) {
            proof {
                assert(gv[m - 1] == g@[m - 1]@);
            }
            a + count_back(&g, m, SegClass::Punct)
        } else {
            proof {
                if m > 0 {
                    assert(gv[m - 1] == g@[m - 1]@);
                }
            }
            a + count_back(&g, m, SegClass::Word)
        };
        proof {
            assert(gv.flatten().len() == c);
            lemma_flatten_split(gv, (n - k) as int);
        }
        prefix_len(&g, n - k)
    }

    /// Cursor after moving one word right (no move at the end).
    pub(crate) fn word_right_of(v: &Vec<char>, c: usize) -> (r: usize)
        requires
            c <= v@.len(),
        ensures
            r == (if c >= v@.len() { c as int } else { word_right_target(v@, c as int) }),
            c <= r <= v@.len(),
    {
        if c >= v.len() {
            return c;
        }
        let g = graphemes_range(v.as_slice(), c, v.len());
        let ghost gv = g@.map_values(|x: String| x@);
        let a = count_fwd(&g, 0, SegClass::Space);
        let k = if a < g.len() && is_punctuation_segment(g[a].as_str()) {
            proof {
                assert(gv[a as int] == g@[a as int]@);
            }
            a + count_fwd(&g, a, SegClass::Punct)
        } else {
            proof {
                if a < g@.len() {
                    assert(gv[a as int] == g@[a as int]@);
                }
            }
            a + count_fwd(&g, a, SegClass::Word)
        };
        proof {
            assert(gv.flatten().len() == v@.len() - c);
            lemma_flatten_split(gv, k as int);
        }
        let p = prefix_len(&g, k);
        c + p
    }

    /// Applies a key press: cancel calls `on_escape`, submit calls `on_submit` with the value,
    /// the other bound actions edit the value or move the cursor.
    /// Which handler a key goes to: cancel goes to the escape handler; submit (or
    /// `shift+enter`) hands the current value to the submit handler; other keys edit.
    pub fn key_signal(&self, key_id: &str) -> (r: InputSignal)
        ensures
            bound(self.bindings_view(), key_id@, EditorAction::SelectCancel) ==> r is Escape,
            !bound(self.bindings_view(), key_id@, EditorAction::SelectCancel) && (bound(
                self.bindings_view(),
                key_id@,
                EditorAction::Submit,
            ) || key_id@ == shift_enter()) ==> (r matches InputSignal::Submit(v) && v@ == self.value_view()),
            !bound(self.bindings_view(), key_id@, EditorAction::SelectCancel) && !bound(
                self.bindings_view(),
                key_id@,
                EditorAction::Submit,
            ) && key_id@ != shift_enter() ==> r is Edit,
    {
        let is_cancel = self.keybindings.matches(key_id, EditorAction::SelectCancel);
        let is_submit = self.keybindings.matches(key_id, EditorAction::Submit);
        let shift_enter_id = string_of(&['s', 'h', 'i', 'f', 't', '+', 'e', 'n', 't', 'e', 'r']);
        let is_shift_enter = str_eq(key_id, shift_enter_id.as_str());
        assert(shift_enter_id@ =~= shift_enter());
        if is_cancel {
            InputSignal::Escape
        } else if is_submit || is_shift_enter {
            InputSignal::Submit(self.value.clone())
        } else {
            InputSignal::Edit
        }
    }

    fn apply_key(&mut self, key_id: &str)
        requires
            old(self).wf(),
        ensures
            (final(self).value@, final(self).cursor as int) == key_step(
                old(self).keybindings.bindings@,
                old(self).value@,
                old(self).cursor as int,
                key_id@,
            ),
            final(self).wf(),
            final(self).prompt == old(self).prompt,
            final(self).keybindings == old(self).keybindings,
            final(self).focused == old(self).focused,
            final(self).hooks() == (
                old(self).notices_view() + old(self).heard(key_notice(old(self).bindings_view(), old(self).value_view(), key_id@)),
                old(self).handlers_set(),
            ),
    {
        match self.key_signal(key_id) {
            InputSignal::Escape => {
                if fire_notify(&mut self.on_escape) {
                    self.notices = Ghost(self.notices@.push(InputNotice::Escaped));
                }
                return;
            },
            InputSignal::Submit(value) => {
                let ghost v = value@;
                if fire_value(&mut self.on_submit, value) {
                    self.notices = Ghost(self.notices@.push(InputNotice::Submitted(v)));
                }
                return;
            },
            InputSignal::Edit => {},
        }
        let v = chars_of(self.value.as_str());
        let c = self.cursor;
        let len = v.len();
        if self.keybindings.matches(key_id, EditorAction::DeleteCharBackward) {
            if c > 0 {
                let t = Self::left_of(&v, c);
                let mut next = slice_chars(v.as_slice(), 0, t);
                let tail = slice_chars(v.as_slice(), c, len);
                extend_chars(&mut next, tail.as_slice());
                self.set_state(next.as_slice(), t);
            }
            return;
        }
        if self.keybindings.matches(key_id, EditorAction::DeleteCharForward) {
            if c < len {
                let t = Self::right_of(&v, c);
                let mut next = slice_chars(v.as_slice(), 0, c);
                let tail = slice_chars(v.as_slice(), t, len);
                extend_chars(&mut next, tail.as_slice());
                self.set_state(next.as_slice(), c);
            }
            return;
        }
        if self.keybindings.matches(key_id, EditorAction::DeleteWordBackward) {
            if c > 0 {
                let t = Self::word_left_of(&v, c);
                let mut next = slice_chars(v.as_slice(), 0, t);
                let tail = slice_chars(v.as_slice(), c, len);
                extend_chars(&mut next, tail.as_slice());
                self.set_state(next.as_slice(), t);
            }
            return;
        }
        if self.keybindings.matches(key_id, EditorAction::DeleteToLineStart) {
            let tail = slice_chars(v.as_slice(), c, len);
            self.set_state(tail.as_slice(), 0);
            return;
        }
        if self.keybindings.matches(key_id, EditorAction::DeleteToLineEnd) {
            let head = slice_chars(v.as_slice(), 0, c);
            self.set_state(head.as_slice(), c);
            return;
        }
        let target = if self.keybindings.matches(key_id, EditorAction::CursorLeft) {
            Self::left_of(&v, c)
        } else if self.keybindings.matches(key_id, EditorAction::CursorRight) {
            Self::right_of(&v, c)
        } else if self.keybindings.matches(key_id, EditorAction::CursorLineStart) {
            0
        } else if self.keybindings.matches(key_id, EditorAction::CursorLineEnd) {
            len
        } else if self.keybindings.matches(key_id, EditorAction::CursorWordLeft) {
            Self::word_left_of(&v, c)
        } else if self.keybindings.matches(key_id, EditorAction::CursorWordRight) {
            Self::word_right_of(&v, c)
        } else {
            c
        };
        self.cursor = target;
    }

    /// Renders the single line and records the cursor position.
    fn render_line(&mut self, width: usize) -> (r: Vec<String>)
        requires
            old(self).wf(),
        ensures
            r@.len() == 1,
            r@[0]@ == input_line(old(self).value@, old(self).cursor as int, old(self).prompt@, width as int),
            final(self).last_cursor_pos == input_cursor(
                old(self).value@,
                old(self).cursor as int,
                old(self).prompt@,
                width as int,
                old(self).focused,
            ),
            final(self).value == old(self).value,
            final(self).cursor == old(self).cursor,
            final(self).wf(),
            final(self).prompt == old(self).prompt,
            final(self).keybindings == old(self).keybindings,
            final(self).focused == old(self).focused,
            final(self).hooks() == old(self).hooks(),
    {
        let p = chars_of(self.prompt.as_str());
        let v = chars_of(self.value.as_str());
        let c = self.cursor;
        let plen = utf8_length(p.as_slice());
        if width <= plen {
            self.last_cursor_pos = None;
            return vec![string_of(p.as_slice())];
        }
        let avail = width - plen;
        let (text, before) = cursor_text_exec(&v, c, avail);
        let (tw, _m) = measure_chars(text.as_slice(), ScanMode::Text);
        let mut line = p.clone();
        extend_chars(&mut line, text.as_slice());
        let pad = if tw < avail {
            avail - tw
        } else {
            0
        };
        let fill = repeat_char(' ', pad);
        extend_chars(&mut line, fill.as_slice());
        if self.focused {
            let (pw, _m1) = measure_chars(p.as_slice(), ScanMode::Text);
            let (bw, _m2) = measure_chars(before.as_slice(), ScanMode::Text);
            self.last_cursor_pos = Some(CursorPos { row: 0, col: pw.saturating_add(bw) });
        } else {
            self.last_cursor_pos = None;
        }
        vec![string_of(line.as_slice())]
    }
}

/// The window text with the cursor cell in inverse video, and the part before the cursor.
fn cursor_text_exec(v: &Vec<char>, c: usize, avail: usize) -> (r: (Vec<char>, Vec<char>))
    requires
        c <= v@.len(),
        avail > 0,
    ensures
        r.0@ == cursor_text(v@, c as int, avail as int),
        r.1@ == before_cursor(v@, c as int, avail as int),
{
    let (start, end, cd0) = byte_window_exec(v, c, avail);
    let vis = slice_chars(v.as_slice(), start, end);
    let cd = if cd0 < vis.len() {
        cd0
    } else {
        vis.len()
    };
    let before = slice_chars(vis.as_slice(), 0, cd);
    let tail = slice_chars(vis.as_slice(), cd, vis.len());
    let mut text = before.clone();
    let on = vec!['\x1b', '[', '7', 'm'];
    let off = vec!['\x1b', '[', '2', '7', 'm'];
    assert(on@ =~= inverse_on());
    assert(off@ =~= inverse_off());
    extend_chars(&mut text, on.as_slice());
    if tail.len() == 0 {
        text.push(' ');
        extend_chars(&mut text, off.as_slice());
        assert(text@ =~= before@ + inverse_on() + seq![' '] + inverse_off() + Seq::<char>::empty());
    } else {
        let g = graphemes_range(tail.as_slice(), 0, tail.len());
        assert(tail@.subrange(0, tail@.len() as int) =~= tail@);
        let ghost gv = g@.map_values(|x: String| x@);
        if g.len() == 0 {
            assert(gv.flatten() =~= Seq::<char>::empty());
            assert(false);
        }
        proof {
            assert(gv.flatten() == gv.first() + gv.drop_first().flatten());
            assert(gv.first() == g@[0]@);
        }
        let first = chars_of(g[0].as_str());
        extend_chars(&mut text, first.as_slice());
        extend_chars(&mut text, off.as_slice());
        let after = slice_chars(tail.as_slice(), first.len(), tail.len());
        extend_chars(&mut text, after.as_slice());
    }
    (text, before)
}

impl Component for Input {
    fn render(&mut self, width: usize) -> (r: Vec<String>)
        ensures
            r@.len() == 1,
            r@[0]@ == input_line(old(self).value_view(), old(self).clamped_cursor(), old(self).prompt_view(), width as int),
            final(self).last_cursor_view() == input_cursor(
                old(self).value_view(),
                old(self).clamped_cursor(),
                old(self).prompt_view(),
                width as int,
                old(self).focused_view(),
            ),
            final(self).value_view() == old(self).value_view(),
            final(self).cursor_view() == old(self).clamped_cursor(),
            final(self).wf(),
            final(self).prompt_view() == old(self).prompt_view(),
            final(self).bindings_view() == old(self).bindings_view(),
            final(self).focused_view() == old(self).focused_view(),
            final(self).hooks() == old(self).hooks(),
    {
        self.clamp_cursor();
        self.render_line(width)
    }

    fn cursor_pos(&self) -> (r: Option<CursorPos>)
        ensures
            r == self.last_cursor_view(),
    {
        self.last_cursor_pos
    }

    /// Text is inserted at the cursor, pastes without their line breaks, key presses act
    /// through the key bindings (see `key_step`).
    fn handle_event(&mut self, event: &InputEvent)
        ensures
            (final(self).value_view(), final(self).cursor_view()) == event_step(
                old(self).bindings_view(),
                old(self).value_view(),
                old(self).clamped_cursor(),
                event@,
            ),
            final(self).wf(),
            final(self).prompt_view() == old(self).prompt_view(),
            final(self).bindings_view() == old(self).bindings_view(),
            final(self).focused_view() == old(self).focused_view(),
            final(self).hooks() == (
                old(self).notices_view() + old(self).heard(event_notice(old(self).bindings_view(), old(self).value_view(), event@)),
                old(self).handlers_set(),
            ),
    {
        self.clamp_cursor();
        match event {
            InputEvent::Text { text } => self.insert_text(text.as_str()),
            InputEvent::Paste { text } => self.handle_paste(text.as_str()),
            InputEvent::Key { key_id } => self.apply_key(key_id.as_str()),
            InputEvent::KeyRelease { key_id } => self.apply_key(key_id.as_str()),
        }
    }

    /// Each event of `data` in turn.
    fn handle_input(&mut self, data: &str)
        ensures
            (final(self).value_view(), final(self).clamped_cursor()) == events_step(
                old(self).bindings_view(),
                old(self).value_view(),
                old(self).clamped_cursor(),
                parse_events(data@),
            ),
            final(self).prompt_view() == old(self).prompt_view(),
            final(self).bindings_view() == old(self).bindings_view(),
            final(self).focused_view() == old(self).focused_view(),
    {
        let events = parse_input_events(data, false);
        let ghost evs = parse_events(data@);
        let mut i: usize = 0;
        assert(evs.take(0) =~= Seq::<EventView>::empty());
        while i < events.len()
            invariant
                i <= events@.len(),
                events@.map_values(|e: InputEvent| e@) == evs,
                (self.value_view(), self.clamped_cursor()) == events_step(
                    old(self).bindings_view(),
                    old(self).value_view(),
                    old(self).clamped_cursor(),
                    evs.take(i as int),
                ),
                self.prompt_view() == old(self).prompt_view(),
                self.bindings_view() == old(self).bindings_view(),
                self.focused_view() == old(self).focused_view(),
            decreases events@.len() - i,
        {
            assert(evs[i as int] == events@[i as int]@);
            assert(evs.take(i + 1 as int).drop_last() =~= evs.take(i as int));
            self.handle_event(&events[i]);
            i += 1;
        }
        assert(evs.take(events@.len() as int) =~= evs);
    }

    fn invalidate(&mut self) {
    }
}

impl Focusable for Input {
    fn set_focused(&mut self, focused: bool)
        ensures
            final(self).focused_view() == focused,
            final(self).value_view() == old(self).value_view(),
            final(self).cursor_view() == old(self).cursor_view(),
            final(self).prompt_view() == old(self).prompt_view(),
            final(self).bindings_view() == old(self).bindings_view(),
            old(self).wf() ==> final(self).wf(),
    {
        self.focused = focused;
    }

    fn is_focused(&self) -> (r: bool)
        ensures
            r == self.focused_view(),
    {
        self.focused
    }
}

} // verus!

//! The multi-line editor as a state machine over mathematical values: lines of characters, a
//! cursor, the undo stack, the kill ring, the history and the paste store. The editor widget's
//! operations are stated as functions from one such state to the next.

use vstd::prelude::*;

use crate::cursor::CursorPos;
use crate::keys::{bound, EditorAction, EventView, KeyBinding};
use crate::digits::decimal;
use crate::chars::spaces;
use crate::text::{grapheme_clusters, is_space_char, sat, split_lines, text_width};
use crate::widgets::editor::word_wrap;
use crate::widgets::editor::expand_markers_from;
use crate::widgets::select_list::trim;
use crate::widgets::editor::{EditorHeightMode, EditorPasteMode};
use crate::widgets::input::{left_target, right_target, word_left_target, word_right_target};
use crate::chars::utf8_bytes;

verus! {

/// The kind of the last editing action, which decides how the next one groups.
#[derive(Clone, Copy, Debug, PartialEq, Eq, Structural)]
pub enum LastAction {
    Kill,
    Yank,
    TypeWord,
}

/// Direction of a pending jump to a character.
#[derive(Clone, Copy, Debug, PartialEq, Eq, Structural)]
pub enum JumpMode {
    Forward,
    Backward,
}

/// The text and cursor, as kept on the undo stack. The column counts characters.
#[verifier::ext_equal]
pub struct Snapshot {
    pub lines: Seq<Seq<char>>,
    pub line: int,
    pub col: int,
}

/// Everything the editor's behaviour depends on.
#[verifier::ext_equal]
pub struct EdModel {
    pub lines: Seq<Seq<char>>,
    pub line: int,
    pub col: int,
    pub undo: Seq<Snapshot>,
    pub kill_ring: Seq<Seq<char>>,
    pub last_action: Option<LastAction>,
    pub history: Seq<Seq<char>>,
    pub history_index: int,
    /// Column (in bytes within the visual line) that vertical moves try to return to.
    pub preferred: Option<int>,
    pub jump: Option<JumpMode>,
    pub pastes: Seq<(u32, Seq<char>)>,
    pub paste_counter: u32,
    pub last_width: int,
    pub scroll_offset: int,
    pub terminal_rows: int,
    pub padding_x: int,
    pub max_visible: int,
    pub height_mode: EditorHeightMode,
    pub paste_mode: EditorPasteMode,
    pub disable_submit: bool,
    pub focused: bool,
    pub last_cursor: Option<CursorPos>,
    pub bindings: Seq<KeyBinding>,
}

pub open spec fn snapshot_wf(s: Snapshot) -> bool {
    &&& s.lines.len() >= 1
    &&& 0 <= s.line < s.lines.len()
    &&& 0 <= s.col <= s.lines[s.line].len()
}

/// The cursor lies in the text, and so does every cursor kept for undo.
pub open spec fn model_wf(m: EdModel) -> bool {
    &&& snapshot_wf(snapshot_of(m))
    &&& forall|i: int| 0 <= i < m.undo.len() ==> snapshot_wf(#[trigger] m.undo[i])
}

/// The cursor moved into the text: a missing text becomes one empty line, the line and the
/// column are clamped.
pub open spec fn clamp(m: EdModel) -> EdModel {
    if m.lines.len() == 0 {
        EdModel { lines: seq![Seq::<char>::empty()], line: 0, col: 0, ..m }
    } else {
        let line = if m.line >= m.lines.len() { m.lines.len() - 1 } else { m.line };
        let n = m.lines[line].len() as int;
        EdModel { line, col: if m.col > n { n } else { m.col }, ..m }
    }
}

pub open spec fn snapshot_of(m: EdModel) -> Snapshot {
    Snapshot { lines: m.lines, line: m.line, col: m.col }
}

/// The line under the cursor.
pub open spec fn cur(m: EdModel) -> Seq<char> {
    m.lines[m.line]
}

pub open spec fn push_undo(m: EdModel) -> EdModel {
    EdModel { undo: m.undo.push(snapshot_of(m)), ..m }
}

/// The cursor placed explicitly, which forgets the preferred column.
pub open spec fn place(m: EdModel, line: int, col: int) -> EdModel {
    EdModel { line, col, preferred: None, ..m }
}

/// Leaving history browsing.
pub open spec fn leave_history(m: EdModel) -> EdModel {
    EdModel { history_index: -1, ..m }
}

pub open spec fn with_action(m: EdModel, a: Option<LastAction>) -> EdModel {
    EdModel { last_action: a, ..m }
}

/// The lines joined with line breaks.
pub open spec fn join_lines(lines: Seq<Seq<char>>) -> Seq<char>
    decreases lines.len(),
{
    if lines.len() == 0 {
        Seq::empty()
    } else if lines.len() == 1 {
        lines[0]
    } else {
        join_lines(lines.drop_last()) + seq!['\n'] + lines.last()
    }
}

/// Carriage returns, alone or before a line feed, become one line feed.
pub open spec fn normalize_breaks(s: Seq<char>) -> Seq<char>
    decreases s.len(),
{
    if s.len() == 0 {
        Seq::empty()
    } else if s[0] == '\r' {
        if s.len() > 1 && s[1] == '\n' {
            seq!['\n'] + normalize_breaks(s.subrange(2, s.len() as int))
        } else {
            seq!['\n'] + normalize_breaks(s.drop_first())
        }
    } else {
        seq![s[0]] + normalize_breaks(s.drop_first())
    }
}

/// The lines of `text` (after normalizing line breaks).
pub open spec fn text_lines(text: Seq<char>) -> Seq<Seq<char>> {
    split_lines(normalize_breaks(text))
}

/// Inserting lines `parts` (at least one) at the cursor: the first joins the text before the
/// cursor, the last the text after it, and the cursor ends after the inserted text.
pub open spec fn insert_parts(m: EdModel, parts: Seq<Seq<char>>) -> EdModel {
    let c = cur(m);
    let before = c.subrange(0, m.col);
    let after = c.subrange(m.col, c.len() as int);
    let n = parts.len() as int;
    if n == 1 {
        place(
            EdModel { lines: m.lines.update(m.line, before + parts[0] + after), ..m },
            m.line,
            m.col + parts[0].len(),
        )
    } else {
        let lines = m.lines.subrange(0, m.line) + seq![before + parts[0]] + parts.subrange(1, n - 1)
            + seq![parts[n - 1] + after] + m.lines.subrange(m.line + 1, m.lines.len() as int);
        place(EdModel { lines, ..m }, m.line + n - 1, parts[n - 1].len() as int)
    }
}

/// Inserting text at the cursor (nothing for empty text).
pub open spec fn insert_text(m: EdModel, text: Seq<char>) -> EdModel {
    if text.len() == 0 {
        m
    } else {
        insert_parts(m, text_lines(text))
    }
}

/// Replacing the whole text: the cursor goes to the end of the last line, the view to the top.
pub open spec fn load_text(m: EdModel, text: Seq<char>) -> EdModel {
    let lines = text_lines(text);
    let last = lines.len() - 1;
    EdModel { lines, scroll_offset: 0, ..place(m, last, lines[last].len() as int) }
}

/// Typing one character; unless it comes from a paste, a whitespace character or a change of
/// action starts a new undo step.
pub open spec fn type_char(m: EdModel, ch: char, from_paste: bool) -> EdModel {
    let m1 = leave_history(m);
    let m2 = if from_paste {
        m1
    } else {
        let m3 = if is_space_char(ch) || m1.last_action != Some(LastAction::TypeWord) {
            push_undo(m1)
        } else {
            m1
        };
        with_action(m3, Some(LastAction::TypeWord))
    };
    let c = cur(m2);
    place(
        EdModel {
            lines: m2.lines.update(
                m2.line,
                c.subrange(0, m2.col) + seq![ch] + c.subrange(m2.col, c.len() as int),
            ),
            ..m2
        },
        m2.line,
        m2.col + 1,
    )
}

/// Adds killed text to the kill ring: a kill right after a kill extends the last entry
/// (in front for backward kills).
pub open spec fn kill(m: EdModel, text: Seq<char>, prepend: bool) -> EdModel {
    if text.len() == 0 {
        m
    } else if m.last_action == Some(LastAction::Kill) && m.kill_ring.len() > 0 {
        let last = m.kill_ring.last();
        EdModel {
            kill_ring: m.kill_ring.drop_last().push(
                if prepend {
                    text + last
                } else {
                    last + text
                },
            ),
            ..m
        }
    } else {
        EdModel { kill_ring: m.kill_ring.push(text), ..m }
    }
}

/// Line `i` joined with the line after it.
pub open spec fn join_with_next(lines: Seq<Seq<char>>, i: int) -> Seq<Seq<char>> {
    lines.subrange(0, i) + seq![lines[i] + lines[i + 1]] + lines.subrange(i + 2, lines.len() as int)
}

/// The current line joined onto the previous one, with the cursor at the seam.
pub open spec fn merge_up(m: EdModel) -> EdModel {
    let p = m.lines[m.line - 1];
    place(EdModel { lines: join_with_next(m.lines, m.line - 1), ..m }, m.line - 1, p.len() as int)
}

/// The next line joined onto the current one; the cursor stays.
pub open spec fn merge_down(m: EdModel) -> EdModel {
    EdModel { lines: join_with_next(m.lines, m.line), ..m }
}

pub open spec fn set_cur(m: EdModel, l: Seq<char>) -> EdModel {
    EdModel { lines: m.lines.update(m.line, l), ..m }
}

pub open spec fn new_line(m: EdModel) -> EdModel {
    let m1 = push_undo(with_action(leave_history(m), None));
    let c = cur(m1);
    let lines = m1.lines.subrange(0, m1.line) + seq![c.subrange(0, m1.col), c.subrange(m1.col, c.len() as int)]
        + m1.lines.subrange(m1.line + 1, m1.lines.len() as int);
    place(EdModel { lines, ..m1 }, m1.line + 1, 0)
}

pub open spec fn backspace(m: EdModel) -> EdModel {
    let m1 = with_action(leave_history(m), None);
    if m1.col > 0 {
        let m2 = push_undo(m1);
        let c = cur(m2);
        let t = left_target(c, m2.col);
        place(set_cur(m2, c.subrange(0, t) + c.subrange(m2.col, c.len() as int)), m2.line, t)
    } else if m1.line > 0 {
        merge_up(push_undo(m1))
    } else {
        m1
    }
}

pub open spec fn forward_delete(m: EdModel) -> EdModel {
    let m1 = with_action(leave_history(m), None);
    let c = cur(m1);
    if m1.col < c.len() {
        let m2 = push_undo(m1);
        let t = right_target(c, m2.col);
        set_cur(m2, c.subrange(0, m2.col) + c.subrange(t, c.len() as int))
    } else if m1.line + 1 < m1.lines.len() {
        merge_down(push_undo(m1))
    } else {
        m1
    }
}

pub open spec fn newline_text() -> Seq<char> {
    seq!['\n']
}

pub open spec fn delete_to_line_start(m: EdModel) -> EdModel {
    let m1 = leave_history(m);
    let c = cur(m1);
    if m1.col > 0 {
        let m2 = with_action(kill(push_undo(m1), c.subrange(0, m1.col), true), Some(LastAction::Kill));
        place(set_cur(m2, c.subrange(m1.col, c.len() as int)), m2.line, 0)
    } else if m1.line > 0 {
        merge_up(with_action(kill(push_undo(m1), newline_text(), true), Some(LastAction::Kill)))
    } else {
        m1
    }
}

pub open spec fn delete_to_line_end(m: EdModel) -> EdModel {
    let m1 = leave_history(m);
    let c = cur(m1);
    if m1.col < c.len() {
        let m2 = with_action(kill(push_undo(m1), c.subrange(m1.col, c.len() as int), false), Some(LastAction::Kill));
        set_cur(m2, c.subrange(0, m1.col))
    } else if m1.line + 1 < m1.lines.len() {
        merge_down(with_action(kill(push_undo(m1), newline_text(), false), Some(LastAction::Kill)))
    } else {
        m1
    }
}

pub open spec fn delete_word_backward(m: EdModel) -> EdModel {
    let m1 = leave_history(m);
    let c = cur(m1);
    if m1.col == 0 {
        if m1.line > 0 {
            merge_up(with_action(kill(push_undo(m1), newline_text(), true), Some(LastAction::Kill)))
        } else {
            m1
        }
    } else {
        let from = word_left_target(c, m1.col);
        let m2 = with_action(kill(push_undo(m1), c.subrange(from, m1.col), true), Some(LastAction::Kill));
        place(set_cur(m2, c.subrange(0, from) + c.subrange(m1.col, c.len() as int)), m2.line, from)
    }
}

pub open spec fn delete_word_forward(m: EdModel) -> EdModel {
    let m1 = leave_history(m);
    let c = cur(m1);
    if m1.col >= c.len() {
        if m1.line + 1 < m1.lines.len() {
            merge_down(with_action(kill(push_undo(m1), newline_text(), false), Some(LastAction::Kill)))
        } else {
            m1
        }
    } else {
        let to = word_right_target(c, m1.col);
        let m2 = with_action(kill(push_undo(m1), c.subrange(m1.col, to), false), Some(LastAction::Kill));
        place(set_cur(m2, c.subrange(0, m1.col) + c.subrange(to, c.len() as int)), m2.line, m1.col)
    }
}

/// Inserting killed text back: its line breaks split lines, without normalization.
pub open spec fn insert_yanked(m: EdModel, text: Seq<char>) -> EdModel {
    insert_parts(leave_history(m), split_lines(text))
}

pub open spec fn yank(m: EdModel) -> EdModel {
    if m.kill_ring.len() == 0 {
        m
    } else {
        with_action(insert_yanked(push_undo(m), m.kill_ring.last()), Some(LastAction::Yank))
    }
}

/// Removing the text that the last yank inserted before the cursor.
pub open spec fn delete_yanked(m: EdModel) -> EdModel {
    let y = m.kill_ring.last();
    if y.len() == 0 {
        m
    } else {
        let parts = split_lines(y);
        let c = cur(m);
        if parts.len() == 1 {
            let start = if m.col >= y.len() { m.col - y.len() } else { 0 };
            place(set_cur(m, c.subrange(0, start) + c.subrange(m.col, c.len() as int)), m.line, start)
        } else {
            let start_line = if m.line >= parts.len() - 1 { m.line - (parts.len() - 1) } else { 0 };
            let first = m.lines[start_line];
            let start_col = if first.len() >= parts[0].len() { first.len() - parts[0].len() } else { 0 };
            let lines = m.lines.subrange(0, start_line) + seq![first.subrange(0, start_col) + c.subrange(m.col, c.len() as int)]
                + m.lines.subrange(m.line + 1, m.lines.len() as int);
            place(EdModel { lines, ..m }, start_line, start_col)
        }
    }
}

/// The kill ring rotated: the last entry moves to the front.
pub open spec fn rotate_ring(r: Seq<Seq<char>>) -> Seq<Seq<char>> {
    seq![r.last()] + r.drop_last()
}

pub open spec fn yank_pop(m: EdModel) -> EdModel {
    if m.last_action != Some(LastAction::Yank) || m.kill_ring.len() <= 1 {
        m
    } else {
        let m1 = delete_yanked(push_undo(m));
        let m2 = EdModel { kill_ring: rotate_ring(m1.kill_ring), ..m1 };
        with_action(insert_yanked(m2, m2.kill_ring.last()), Some(LastAction::Yank))
    }
}

pub open spec fn undo(m: EdModel) -> EdModel {
    let m1 = leave_history(m);
    if m1.undo.len() == 0 {
        m1
    } else {
        let s = m1.undo.last();
        EdModel {
            lines: s.lines,
            line: s.line,
            col: s.col,
            undo: m1.undo.drop_last(),
            last_action: None,
            preferred: None,
            ..m1
        }
    }
}

/// Browsing the history: `direction` -1 goes to older entries, 1 back towards the draft.
pub open spec fn navigate_history(m: EdModel, direction: int) -> EdModel {
    let m1 = with_action(m, None);
    let ni = m1.history_index - direction;
    if m1.history.len() == 0 || ni < -1 || ni >= m1.history.len() {
        m1
    } else {
        let m2 = if m1.history_index == -1 && ni >= 0 { push_undo(m1) } else { m1 };
        let m3 = EdModel { history_index: ni, ..m2 };
        load_text(m3, if ni == -1 { Seq::empty() } else { m1.history[ni] })
    }
}

/// Byte offset of character index `k` in `s`.
pub open spec fn byte_col(s: Seq<char>, k: int) -> int {
    utf8_bytes(s.subrange(0, k)) as int
}

/// The character index at byte offset `b` of `s`, moved back to the start of the character
/// it falls in, and to the end of `s` when past it.
pub open spec fn snap_from(s: Seq<char>, k: int, b: int) -> int
    decreases s.len() - k,
{
    if k < 0 || k >= s.len() {
        s.len() as int
    } else if byte_col(s, k + 1) > b {
        k
    } else {
        snap_from(s, k + 1, b)
    }
}

pub open spec fn snap(s: Seq<char>, b: int) -> int {
    snap_from(s, 0, b)
}


pub open spec fn line_start(m: EdModel) -> EdModel {
    place(with_action(m, None), m.line, 0)
}

pub open spec fn line_end(m: EdModel) -> EdModel {
    place(with_action(m, None), m.line, cur(m).len() as int)
}

/// One word back: to the end of the previous line from the start of a line.
pub open spec fn word_back(m: EdModel) -> EdModel {
    let m1 = with_action(m, None);
    if m1.col == 0 {
        if m1.line > 0 {
            place(m1, m1.line - 1, m1.lines[m1.line - 1].len() as int)
        } else {
            m1
        }
    } else {
        place(m1, m1.line, word_left_target(cur(m1), m1.col))
    }
}

/// One word forward: to the start of the next line from the end of a line.
pub open spec fn word_forward(m: EdModel) -> EdModel {
    let m1 = with_action(m, None);
    if m1.col >= cur(m1).len() {
        if m1.line + 1 < m1.lines.len() {
            place(m1, m1.line + 1, 0)
        } else {
            m1
        }
    } else {
        place(m1, m1.line, word_right_target(cur(m1), m1.col))
    }
}

/// One grapheme left, or to the end of the previous line.
pub open spec fn move_left(m: EdModel) -> EdModel {
    let m1 = with_action(m, None);
    if m1.col > 0 {
        place(m1, m1.line, left_target(cur(m1), m1.col))
    } else if m1.line > 0 {
        place(m1, m1.line - 1, m1.lines[m1.line - 1].len() as int)
    } else {
        m1
    }
}

/// First index of `ch` in `s` at or after `i`.
pub open spec fn find_char_from(s: Seq<char>, ch: char, i: int) -> Option<int>
    decreases s.len() - i,
{
    if i < 0 || i >= s.len() {
        None
    } else if s[i] == ch {
        Some(i)
    } else {
        find_char_from(s, ch, i + 1)
    }
}

/// Last index of `ch` in `s` before `j`.
pub open spec fn rfind_char_before(s: Seq<char>, ch: char, j: int) -> Option<int>
    decreases j,
{
    if j <= 0 || j > s.len() {
        None
    } else if s[j - 1] == ch {
        Some(j - 1)
    } else {
        rfind_char_before(s, ch, j - 1)
    }
}

/// The next occurrence of `ch` after the cursor, searching line `idx` and the lines below it.
pub open spec fn jump_scan_forward(m: EdModel, ch: char, idx: int) -> Option<(int, int)>
    decreases m.lines.len() - idx,
{
    if idx < 0 || idx >= m.lines.len() {
        None
    } else {
        let l = m.lines[idx];
        let start = if idx == m.line {
            if m.col < l.len() { m.col + 1 } else { l.len() as int }
        } else {
            0
        };
        match find_char_from(l, ch, start) {
            Some(k) => Some((idx, k)),
            None => jump_scan_forward(m, ch, idx + 1),
        }
    }
}

/// The previous occurrence of `ch` before the cursor, searching line `idx` and the lines above.
pub open spec fn jump_scan_backward(m: EdModel, ch: char, idx: int) -> Option<(int, int)>
    decreases idx + 1,
{
    if idx < 0 || idx >= m.lines.len() {
        None
    } else {
        let l = m.lines[idx];
        let found = if idx == m.line {
            rfind_char_before(l, ch, m.col)
        } else {
            rfind_char_before(l, ch, l.len() as int)
        };
        match found {
            Some(k) => Some((idx, k)),
            None => jump_scan_backward(m, ch, idx - 1),
        }
    }
}

/// Jumping to the next (or previous) occurrence of `ch`; no move when there is none.
pub open spec fn jump_to(m: EdModel, ch: char, mode: JumpMode) -> EdModel {
    let m1 = with_action(m, None);
    let found = match mode {
        JumpMode::Forward => jump_scan_forward(m1, ch, m1.line),
        JumpMode::Backward => jump_scan_backward(m1, ch, m1.line),
    };
    match found {
        Some((l, k)) => place(m1, l, k),
        None => m1,
    }
}

/// Adds a submitted text to the front of the history (trimmed; not when empty or equal to
/// the newest entry); at most 100 entries are kept.
pub open spec fn add_history(m: EdModel, text: Seq<char>) -> EdModel {
    let t = trim(text);
    if t.len() == 0 || (m.history.len() > 0 && m.history[0] == t) {
        m
    } else {
        let h = seq![t] + m.history;
        EdModel { history: if h.len() > 100 { h.drop_last() } else { h }, ..m }
    }
}

/// Tabs of pasted text as four spaces.
pub open spec fn expand_paste_tabs(s: Seq<char>) -> Seq<char>
    decreases s.len(),
{
    if s.len() == 0 {
        Seq::empty()
    } else {
        (if s[0] == '\t' { seq![' ', ' ', ' ', ' '] } else { seq![s[0]] }) + expand_paste_tabs(s.drop_first())
    }
}

/// Pasted text cleaned: normalized line breaks, tabs expanded, other control characters
/// dropped.
pub open spec fn clean_paste(t: Seq<char>) -> Seq<char> {
    expand_paste_tabs(normalize_breaks(t)).filter(|c: char| c == '\n' || c as u32 >= 32)
}

pub open spec fn is_path_start(c: char) -> bool {
    c == '/' || c == '~' || c == '.'
}

pub open spec fn is_word_ascii(c: char) -> bool {
    ('a' <= c && c <= 'z') || ('A' <= c && c <= 'Z') || ('0' <= c && c <= '9') || c == '_'
}

/// A pasted path right after a word character gets a separating space.
pub open spec fn spaced_paste(m: EdModel, f: Seq<char>) -> Seq<char> {
    if f.len() > 0 && is_path_start(f[0]) && m.col > 0 && is_word_ascii(cur(m)[m.col - 1]) {
        seq![' '] + f
    } else {
        f
    }
}

pub open spec fn count_breaks(s: Seq<char>) -> nat
    decreases s.len(),
{
    if s.len() == 0 {
        0
    } else {
        count_breaks(s.drop_last()) + if s.last() == '\n' { 1nat } else { 0nat }
    }
}

/// Length of `s` in UTF-16 code units.
pub open spec fn utf16_units(s: Seq<char>) -> nat
    decreases s.len(),
{
    if s.len() == 0 {
        0
    } else {
        utf16_units(s.drop_last()) + if s.last() as u32 >= 0x10000 { 2nat } else { 1nat }
    }
}

/// Index of the first entry stored under `id`, from entry `i` on.
pub open spec fn paste_slot(p: Seq<(u32, Seq<char>)>, id: u32, i: int) -> Option<int>
    decreases p.len() - i,
{
    if i < 0 || i >= p.len() {
        None
    } else if p[i].0 == id {
        Some(i)
    } else {
        paste_slot(p, id, i + 1)
    }
}

/// The store with `text` under `id`, replacing the content stored under that id.
pub open spec fn store_paste(p: Seq<(u32, Seq<char>)>, id: u32, text: Seq<char>) -> Seq<(u32, Seq<char>)> {
    match paste_slot(p, id, 0) {
        Some(i) => p.update(i, (id, text)),
        None => p.push((id, text)),
    }
}

/// `[paste #ID +N lines]` or `[paste #ID N chars]`.
pub open spec fn paste_marker(id: u32, lines: nat, chars: nat, by_lines: bool) -> Seq<char> {
    if by_lines {
        seq!['[', 'p', 'a', 's', 't', 'e', ' ', '#'] + decimal(id as nat) + seq![' ', '+'] + decimal(lines)
            + seq![' ', 'l', 'i', 'n', 'e', 's', ']']
    } else {
        seq!['[', 'p', 'a', 's', 't', 'e', ' ', '#'] + decimal(id as nat) + seq![' '] + decimal(chars)
            + seq![' ', 'c', 'h', 'a', 'r', 's', ']']
    }
}

/// Typing each character of `s` as pasted text.
pub open spec fn type_all(m: EdModel, s: Seq<char>) -> EdModel
    decreases s.len(),
{
    if s.len() == 0 {
        m
    } else {
        type_all(type_char(m, s[0], true), s.drop_first())
    }
}

/// A bracketed paste: one undo step; in literal mode the text itself, otherwise more than
/// ten lines or a thousand UTF-16 units become a stored paste and its marker, one line is
/// typed, and several lines are inserted.
pub open spec fn paste(m: EdModel, t: Seq<char>) -> EdModel {
    let m1 = push_undo(with_action(leave_history(m), None));
    let f = spaced_paste(m1, clean_paste(t));
    if m1.paste_mode == EditorPasteMode::Literal {
        insert_text(m1, f)
    } else {
        let nl = sat(count_breaks(f) + 1) as nat;
        let nc = sat(utf16_units(f)) as nat;
        if nl > 10 || nc > 1000 {
            let id = if m1.paste_counter < u32::MAX { (m1.paste_counter + 1) as u32 } else { u32::MAX };
            let m2 = EdModel { paste_counter: id, pastes: store_paste(m1.pastes, id, f), ..m1 };
            insert_text(m2, paste_marker(id, nl, nc, nl > 10))
        } else if nl == 1 {
            type_all(m1, f)
        } else {
            insert_text(m1, f)
        }
    }
}

/// The submitted value: the trimmed text with paste markers expanded.
pub open spec fn submitted(m: EdModel) -> Seq<char> {
    expand_markers_from(trim(join_lines(m.lines)), 0, m.pastes)
}

/// After a submission: empty text, no pastes, no undo steps, not browsing history.
pub open spec fn after_submit(m: EdModel) -> EdModel {
    EdModel {
        lines: seq![Seq::<char>::empty()],
        line: 0,
        col: 0,
        pastes: Seq::empty(),
        paste_counter: 0,
        history_index: -1,
        scroll_offset: 0,
        undo: Seq::empty(),
        last_action: None,
        ..m
    }
}


/// `a - b`, or 0 when `b` is larger.
pub open spec fn sat_sub(a: int, b: int) -> int {
    if a >= b { a - b } else { 0 }
}

/// The rows of line `l` (number `idx`) wrapped at `width` cells, each as (line, first byte,
/// length in bytes): one row for an empty or fitting line, else one per chunk of `word_wrap`.
pub open spec fn line_visuals(l: Seq<char>, idx: int, width: nat) -> Seq<(int, int, int)> {
    if l.len() == 0 {
        seq![(idx, 0int, 0int)]
    } else if sat(text_width(l)) <= width {
        seq![(idx, 0int, sat(utf8_bytes(l)) as int)]
    } else {
        word_wrap(l, width).map_values(|c: (Seq<char>, usize, usize)| (idx, c.1 as int, sat_sub(c.2 as int, c.1 as int)))
    }
}

/// The rows of all lines.
pub open spec fn visual_lines(lines: Seq<Seq<char>>, width: nat) -> Seq<(int, int, int)>
    decreases lines.len(),
{
    if lines.len() == 0 {
        Seq::empty()
    } else {
        visual_lines(lines.drop_last(), width) + line_visuals(lines.last(), lines.len() - 1, width)
    }
}

/// Row `i` is the last row of its line.
pub open spec fn last_row_of_line(vls: Seq<(int, int, int)>, i: int) -> bool {
    i + 1 >= vls.len() || vls[i + 1].0 != vls[i].0
}

/// Byte offset of the cursor in its line.
pub open spec fn cursor_byte(m: EdModel) -> int {
    sat(utf8_bytes(cur(m).subrange(0, m.col))) as int
}

/// The row holding byte `cb` of line `line`, searching from row `i`; the last row when none.
pub open spec fn find_row_from(vls: Seq<(int, int, int)>, line: int, cb: int, i: int) -> int
    decreases vls.len() - i,
{
    if i < 0 || i >= vls.len() {
        sat_sub(vls.len() as int, 1)
    } else if vls[i].0 == line && (sat_sub(cb, vls[i].1) < vls[i].2 || (last_row_of_line(vls, i)
        && sat_sub(cb, vls[i].1) <= vls[i].2)) {
        i
    } else {
        find_row_from(vls, line, cb, i + 1)
    }
}

/// The rows of the text at the width of the last rendering.
pub open spec fn rows_of(m: EdModel) -> Seq<(int, int, int)> {
    visual_lines(m.lines, m.last_width as nat)
}

/// The row holding the cursor.
pub open spec fn cursor_row(m: EdModel) -> int {
    find_row_from(rows_of(m), m.line, cursor_byte(m), 0)
}

/// Column for a vertical move and the preferred column after it: a cursor in the middle of a
/// row (or without a preferred column) keeps its column, remembering it when the target row is
/// too short; otherwise the preferred column is restored where it fits.
pub open spec fn vertical_column(pref: Option<int>, cvc: int, smax: int, tmax: int) -> (int, Option<int>) {
    if pref is None || cvc < smax {
        if tmax < cvc {
            (tmax, Some(cvc))
        } else {
            (cvc, None)
        }
    } else {
        let p = pref->0;
        if tmax < cvc || tmax < p {
            (tmax, pref)
        } else {
            (p, None)
        }
    }
}

/// The character index of byte offset `b` in `s`, moved back to the start of its character.
pub open spec fn floor_char(s: Seq<char>, b: int) -> int {
    snap(s, b)
}

/// Moving the cursor from row `ci` to row `ti` of `vls`.
pub open spec fn move_to_row(m: EdModel, vls: Seq<(int, int, int)>, ci: int, ti: int) -> EdModel {
    if ci < 0 || ci >= vls.len() || ti < 0 || ti >= vls.len() {
        m
    } else {
        let cvl = vls[ci];
        let tvl = vls[ti];
        let cvc = sat_sub(cursor_byte(m), cvl.1);
        let smax = if last_row_of_line(vls, ci) { cvl.2 } else { sat_sub(cvl.2, 1) };
        let tmax = if last_row_of_line(vls, ti) { tvl.2 } else { sat_sub(tvl.2, 1) };
        let (mc, pref) = vertical_column(m.preferred, cvc, smax, tmax);
        let target = sat((tvl.1 + mc) as nat) as int;
        let ll = sat(utf8_bytes(m.lines[tvl.0])) as int;
        let b = if target <= ll { target } else { ll };
        EdModel { line: tvl.0, col: floor_char(m.lines[tvl.0], b), preferred: pref, ..m }
    }
}

/// One grapheme right, or to the start of the next line; at the very end the current column
/// becomes the preferred one.
pub open spec fn move_right_at(m: EdModel, vls: Seq<(int, int, int)>, ci: int) -> EdModel {
    let c = cur(m);
    if m.col < c.len() {
        place(m, m.line, right_target(c, m.col))
    } else if m.line + 1 < m.lines.len() {
        place(m, m.line + 1, 0)
    } else if 0 <= ci < vls.len() {
        EdModel { preferred: Some(sat_sub(cursor_byte(m), vls[ci].1)), ..m }
    } else {
        m
    }
}

/// Moving `dl` rows (negative: up) and then one grapheme in the direction of `dc`.
pub open spec fn move_cursor_by(m: EdModel, dl: int, dc: int) -> EdModel {
    let m1 = with_action(m, None);
    let vls = rows_of(m1);
    let ci = cursor_row(m1);
    let m2 = if dl != 0 {
        let ti = if dl < 0 {
            sat_sub(ci, -dl)
        } else {
            let up = sat((ci + dl) as nat) as int;
            let lastr = sat_sub(vls.len() as int, 1);
            if lastr <= up { lastr } else { up }
        };
        if ti < vls.len() { move_to_row(m1, vls, ci, ti) } else { m1 }
    } else {
        m1
    };
    if dc > 0 {
        move_right_at(m2, vls, ci)
    } else if dc < 0 {
        move_left(m2)
    } else {
        m2
    }
}

/// Rows moved by a page: three tenths of the terminal, at least five.
pub open spec fn page_rows(m: EdModel) -> int {
    let p = sat((m.terminal_rows * 3) as nat) as int / 10;
    if p < 5 { 5 } else { p }
}

/// Moving a page up (`dir` < 0) or down.
pub open spec fn page_scroll(m: EdModel, dir: int) -> EdModel {
    let m1 = with_action(m, None);
    let vls = rows_of(m1);
    let ci = cursor_row(m1);
    let ti = if dir < 0 {
        sat_sub(ci, page_rows(m1))
    } else {
        let up = sat((ci + page_rows(m1)) as nat) as int;
        let lastr = sat_sub(vls.len() as int, 1);
        if lastr <= up { lastr } else { up }
    };
    move_to_row(m1, vls, ci, ti)
}

pub open spec fn on_first_row(m: EdModel) -> bool {
    cursor_row(m) == 0
}

pub open spec fn on_last_row(m: EdModel) -> bool {
    cursor_row(m) + 1 == rows_of(m).len()
}

/// Every row names a line of the text.
pub proof fn lemma_rows_in_range(lines: Seq<Seq<char>>, width: nat)
    ensures
        forall|i: int| 0 <= i < visual_lines(lines, width).len() ==> 0 <= (#[trigger] visual_lines(lines, width)[i]).0 < lines.len(),
        lines.len() > 0 ==> visual_lines(lines, width).len() > 0,
    decreases lines.len(),
{
    if lines.len() > 0 {
        let init = lines.drop_last();
        lemma_rows_in_range(init, width);
        let a = visual_lines(init, width);
        let b = line_visuals(lines.last(), lines.len() - 1, width);
        assert forall|i: int| 0 <= i < b.len() implies (#[trigger] b[i]).0 == lines.len() - 1 by {}
        assert forall|i: int| 0 <= i < visual_lines(lines, width).len() implies 0 <= (#[trigger] visual_lines(lines, width)[i]).0 < lines.len() by {
            if i < a.len() {
                assert(visual_lines(lines, width)[i] == a[i]);
            } else {
                assert(visual_lines(lines, width)[i] == b[i - a.len()]);
            }
        }
        if sat(text_width(lines.last())) > width && lines.last().len() > 0 {
            assert(word_wrap(lines.last(), width).len() > 0);
        }
    }
}

/// The start of the character at byte `b` lies within `s`.
pub proof fn lemma_snap_bounds(s: Seq<char>, k: int, b: int)
    requires
        0 <= k <= s.len(),
    ensures
        k <= snap_from(s, k, b) <= s.len(),
    decreases s.len() - k,
{
    if k < s.len() && byte_col(s, k + 1) <= b {
        lemma_snap_bounds(s, k + 1, b);
    }
}


/// A row of the laid-out text and, on the cursor's row, the cursor's byte offset in it.
pub struct LayoutRow {
    pub text: Seq<char>,
    pub cursor: Option<int>,
}

/// Rows for the chunks of a wrapped line; on the cursor's line the chunk holding the cursor
/// byte `cb` (the last chunk from its start on) carries the cursor.
pub open spec fn chunk_rows(cs: Seq<(Seq<char>, usize, usize)>, is_current: bool, cb: int) -> Seq<LayoutRow> {
    Seq::new(
        cs.len(),
        |k: int|
            {
                let c = cs[k];
                let st = c.1 as int;
                let cursor = if !is_current {
                    None
                } else if k + 1 == cs.len() {
                    if cb >= st { Some(sat_sub(cb, st)) } else { None }
                } else if cb >= st && cb < c.2 as int {
                    let adj = sat_sub(cb, st);
                    let tl = sat(utf8_bytes(c.0)) as int;
                    Some(if adj > tl { tl } else { adj })
                } else {
                    None
                };
                LayoutRow { text: c.0, cursor }
            },
    )
}

/// The rows of one line: the line itself when it fits, else its wrapped chunks.
pub open spec fn line_layout(l: Seq<char>, is_current: bool, cb: int, width: nat) -> Seq<LayoutRow> {
    if sat(text_width(l)) <= width {
        seq![LayoutRow { text: l, cursor: if is_current { Some(cb) } else { None } }]
    } else {
        chunk_rows(word_wrap(l, width), is_current, cb)
    }
}

pub open spec fn layout_prefix(m: EdModel, width: nat, n: int) -> Seq<LayoutRow>
    decreases n,
{
    if n <= 0 || n > m.lines.len() {
        Seq::empty()
    } else {
        layout_prefix(m, width, n - 1) + line_layout(m.lines[n - 1], n - 1 == m.line, cursor_byte(m), width)
    }
}

/// The laid-out text: one row with the cursor for an empty text, else the rows of every line.
pub open spec fn layout(m: EdModel, width: nat) -> Seq<LayoutRow> {
    if m.lines.len() == 0 || (m.lines.len() == 1 && m.lines[0].len() == 0) {
        seq![LayoutRow { text: Seq::empty(), cursor: Some(0) }]
    } else {
        layout_prefix(m, width, m.lines.len() as int)
    }
}

/// Side padding used at `width`: the configured one, limited to half of the width less one.
pub open spec fn render_padding(m: EdModel, width: int) -> int {
    let mp = sat_sub(width, 1) / 2;
    if m.padding_x <= mp { m.padding_x } else { mp }
}

/// Cells between the paddings (at least one).
pub open spec fn render_content_width(m: EdModel, width: int) -> int {
    let c = sat_sub(width, render_padding(m, width) * 2);
    if c < 1 { 1 } else { c }
}

/// Width the text is wrapped at: the content width, less one cell for the cursor when there is
/// no padding (at least one).
pub open spec fn render_layout_width(m: EdModel, width: int) -> int {
    let c = sat_sub(render_content_width(m, width), if render_padding(m, width) > 0 { 0 } else { 1 });
    if c < 1 { 1 } else { c }
}

/// Rows shown and whether exactly that many are drawn: three tenths of the terminal (at least
/// five), or in fill mode all rows but the two borders.
pub open spec fn shown_rows(m: EdModel) -> (int, bool) {
    match m.height_mode {
        EditorHeightMode::Default => (page_rows(m), false),
        EditorHeightMode::FillAvailable => if m.terminal_rows == 0 {
            (page_rows(m), false)
        } else {
            (sat_sub(m.terminal_rows, 2), true)
        },
    }
}

/// Index of the first row holding the cursor, from row `i` on; 0 when none does.
pub open spec fn first_cursor_row(rows: Seq<LayoutRow>, i: int) -> int
    decreases rows.len() - i,
{
    if i < 0 || i >= rows.len() {
        0
    } else if rows[i].cursor is Some {
        i
    } else {
        first_cursor_row(rows, i + 1)
    }
}

/// Scroll offset that keeps the cursor row `ci` among `mv` shown rows of `total`.
pub open spec fn scrolled(so: int, ci: int, mv: int, total: int) -> int {
    let s1 = if ci < so {
        ci
    } else if ci >= so + mv {
        sat_sub(ci, sat_sub(mv, 1))
    } else {
        so
    };
    let ms = sat_sub(total, mv);
    if s1 > ms { ms } else { s1 }
}

pub open spec fn reset_sgr() -> Seq<char> {
    seq!['\x1b', '[', '0', 'm']
}

pub open spec fn reverse_video() -> Seq<char> {
    seq!['\x1b', '[', '7', 'm']
}

/// The character index of the cursor in a row.
pub open spec fn row_cursor_index(text: Seq<char>, cp: int) -> int {
    let bl = sat(utf8_bytes(text)) as int;
    floor_char(text, if cp <= bl { cp } else { bl })
}

/// The text from the cursor on, its first grapheme in reverse video.
pub open spec fn cursor_shown(after: Seq<char>) -> Seq<char> {
    let g = grapheme_clusters(after);
    let first = if g.len() > 0 { g[0] } else { Seq::<char>::empty() };
    let fl = if first.len() <= after.len() { first.len() as int } else { after.len() as int };
    reverse_video() + first + reset_sgr() + after.subrange(fl, after.len() as int)
}

/// A row without the cursor: padding, the text, spaces up to the content width, padding.
pub open spec fn row_plain(d: Seq<char>, cw: int, padding: int) -> Seq<char> {
    let lw = sat(text_width(d)) as int;
    spaces(padding as nat) + d + spaces(sat_sub(cw, lw) as nat) + spaces(padding as nat)
}

/// A row with the cursor before character `k`: the grapheme there in reverse video.
pub open spec fn row_cursor_inside(d: Seq<char>, k: int, cw: int, padding: int) -> Seq<char> {
    let lw = sat(text_width(d)) as int;
    spaces(padding as nat) + d.subrange(0, k) + cursor_shown(d.subrange(k, d.len() as int)) + spaces(
        sat_sub(cw, lw) as nat,
    ) + spaces(padding as nat)
}

/// A row with the cursor at its end: a reverse-video space, which takes a cell of the right
/// padding when it pushes past the content width.
pub open spec fn row_cursor_end(d: Seq<char>, cw: int, padding: int) -> Seq<char> {
    let lw1 = sat((sat(text_width(d)) + 1) as nat) as int;
    let pushes = lw1 > cw && padding > 0;
    spaces(padding as nat) + d + reverse_video() + seq![' '] + reset_sgr() + spaces(sat_sub(cw, lw1) as nat)
        + spaces((if pushes { padding - 1 } else { padding }) as nat)
}

/// A shown row (see `row_plain`, `row_cursor_inside` and `row_cursor_end`).
pub open spec fn render_row(row: LayoutRow, cw: int, padding: int) -> Seq<char> {
    match row.cursor {
        None => row_plain(row.text, cw, padding),
        Some(cp) => {
            let k = row_cursor_index(row.text, cp);
            if k < row.text.len() {
                row_cursor_inside(row.text, k, cw, padding)
            } else {
                row_cursor_end(row.text, cw, padding)
            }
        },
    }
}

/// Where the hardware cursor goes for the cursor on row `vi`.
pub open spec fn row_cursor_pos(row: LayoutRow, vi: int, padding: int) -> Option<CursorPos> {
    match row.cursor {
        None => None,
        Some(cp) => {
            let before = row.text.subrange(0, row_cursor_index(row.text, cp));
            Some(CursorPos { row: (1 + vi) as usize, col: sat((padding + sat(text_width(before))) as nat) })
        },
    }
}

/// The cursor position from the last of the first `n` shown rows that holds the cursor.
pub open spec fn shown_cursor(rows: Seq<LayoutRow>, padding: int, n: int) -> Option<CursorPos>
    decreases n,
{
    if n <= 0 || n > rows.len() {
        None
    } else {
        match row_cursor_pos(rows[n - 1], n - 1, padding) {
            Some(p) => Some(p),
            None => shown_cursor(rows, padding, n - 1),
        }
    }
}

/// The state of a rendering at `width`: the laid-out rows, the scroll offset and the rows shown.
pub open spec fn render_rows_shown(m: EdModel, width: int) -> (Seq<LayoutRow>, int, Seq<LayoutRow>) {
    let lay = layout(m, render_layout_width(m, width) as nat);
    let (mv, fill) = shown_rows(m);
    let ci = first_cursor_row(lay, 0);
    let so = scrolled(m.scroll_offset, ci, mv, lay.len() as int);
    let end = if so + mv <= lay.len() { so + mv } else { lay.len() as int };
    let vis = lay.subrange(so, end);
    let shown = if fill && vis.len() < mv {
        vis + Seq::new((mv - vis.len()) as nat, |_i: int| LayoutRow { text: Seq::empty(), cursor: None })
    } else {
        vis
    };
    (lay, so, shown)
}

/// The editor after rendering at `width` (the cursor clamped first).
pub open spec fn after_render(m0: EdModel, width: int) -> EdModel {
    let m = clamp(m0);
    let (lay, so, shown) = render_rows_shown(m, width);
    let p = render_padding(m, width);
    EdModel {
        last_width: render_layout_width(m, width),
        scroll_offset: so,
        last_cursor: if m.focused { shown_cursor(shown, p, shown.len() as int) } else { None },
        ..m
    }
}

/// Whether the bottom border is drawn (not in fill mode on a one-row terminal).
pub open spec fn has_bottom_border(m0: EdModel) -> bool {
    let (mv, fill) = shown_rows(clamp(m0));
    !(fill && m0.terminal_rows == 1)
}


/// Typing each character of `t`.
pub open spec fn type_text(m: EdModel, t: Seq<char>) -> EdModel
    decreases t.len(),
{
    if t.len() == 0 {
        m
    } else {
        type_text(type_char(m, t[0], false), t.drop_first())
    }
}

/// The key of a key event.
pub open spec fn event_key(e: EventView) -> Option<Seq<char>> {
    match e {
        EventView::Key(k) => Some(k),
        EventView::Release(k) => Some(k),
        _ => None,
    }
}

/// The event is a key bound to `action`.
pub open spec fn key_bound(m: EdModel, e: EventView, action: EditorAction) -> bool {
    match event_key(e) {
        Some(k) => bound(m.bindings, k, action),
        None => false,
    }
}

pub open spec fn is_key(e: EventView, name: Seq<char>) -> bool {
    event_key(e) == Some(name)
}

pub open spec fn editor_empty(m: EdModel) -> bool {
    m.lines.len() == 1 && m.lines[0].len() == 0
}

/// Submitting: not when disabled; a line ending in a backslash before the cursor gets a line
/// break instead of the backslash.
pub open spec fn submit_step(m: EdModel) -> EdModel {
    if m.disable_submit {
        m
    } else if m.col > 0 && cur(m)[m.col - 1] == '\\' {
        new_line(backspace(m))
    } else {
        after_submit(m)
    }
}

/// Up: browses the history from an empty editor or while browsing on the first row, goes to
/// the line start on the first row, else moves a row up.
pub open spec fn up_step(m: EdModel) -> EdModel {
    if editor_empty(m) || (m.history_index > -1 && on_first_row(m)) {
        navigate_history(m, -1)
    } else if on_first_row(m) {
        line_start(m)
    } else {
        move_cursor_by(m, -1, 0)
    }
}

/// Down: browses back towards the draft on the last row, goes to the line end on the last
/// row, else moves a row down.
pub open spec fn down_step(m: EdModel) -> EdModel {
    if m.history_index > -1 && on_last_row(m) {
        navigate_history(m, 1)
    } else if on_last_row(m) {
        line_end(m)
    } else {
        move_cursor_by(m, 1, 0)
    }
}

pub open spec fn shift_backspace() -> Seq<char> {
    seq!['s', 'h', 'i', 'f', 't', '+', 'b', 'a', 'c', 'k', 's', 'p', 'a', 'c', 'e']
}

pub open spec fn shift_delete() -> Seq<char> {
    seq!['s', 'h', 'i', 'f', 't', '+', 'd', 'e', 'l', 'e', 't', 'e']
}

/// Whether `e` reaches the submit action of `key_action`: no key of higher precedence is
/// bound to it and the submit key is.
pub open spec fn submit_key(m: EdModel, e: EventView) -> bool {
    &&& !key_bound(m, e, EditorAction::DeleteToLineEnd)
    &&& !key_bound(m, e, EditorAction::DeleteToLineStart)
    &&& !key_bound(m, e, EditorAction::DeleteWordBackward)
    &&& !key_bound(m, e, EditorAction::DeleteWordForward)
    &&& !(key_bound(m, e, EditorAction::DeleteCharBackward) || is_key(e, shift_backspace()))
    &&& !(key_bound(m, e, EditorAction::DeleteCharForward) || is_key(e, shift_delete()))
    &&& !key_bound(m, e, EditorAction::Yank)
    &&& !key_bound(m, e, EditorAction::YankPop)
    &&& !key_bound(m, e, EditorAction::CursorLineStart)
    &&& !key_bound(m, e, EditorAction::CursorLineEnd)
    &&& !key_bound(m, e, EditorAction::CursorWordLeft)
    &&& !key_bound(m, e, EditorAction::CursorWordRight)
    &&& !key_bound(m, e, EditorAction::NewLine)
    &&& key_bound(m, e, EditorAction::Submit)
}

/// Whether submitting on `m` hands the text on (not disabled, and no backslash before the
/// cursor to turn into a line break).
pub open spec fn submit_sends(m: EdModel) -> bool {
    !m.disable_submit && !(m.col > 0 && cur(m)[m.col - 1] == '\\')
}

/// The text that event `e` submits from `m0`, if it submits: the event reaches the submit
/// action (no pending jump takes it, and it is no paste, copy, undo or tab) and the
/// submission goes through.
pub open spec fn event_submission(m0: EdModel, e: EventView) -> Option<Seq<char>> {
    let m = clamp(m0);
    let taken_by_jump = match m.jump {
        Some(_) => key_bound(m, e, EditorAction::JumpForward) || key_bound(m, e, EditorAction::JumpBackward) || (
        match e {
            EventView::Text(t) => t.len() > 0 && t[0] as u32 >= 32,
            _ => false,
        }),
        None => false,
    };
    let m1 = EdModel { jump: None, ..m };
    if taken_by_jump || e is Paste || key_bound(m1, e, EditorAction::Copy) || key_bound(m1, e, EditorAction::Undo)
        || key_bound(m1, e, EditorAction::Tab) || !submit_key(m1, e) || !submit_sends(m1) {
        None
    } else {
        Some(submitted(m1))
    }
}

/// The bound action of a key, in order of precedence, applied to the editor.
pub open spec fn key_action(m: EdModel, e: EventView) -> EdModel {
    if key_bound(m, e, EditorAction::DeleteToLineEnd) {
        delete_to_line_end(m)
    } else if key_bound(m, e, EditorAction::DeleteToLineStart) {
        delete_to_line_start(m)
    } else if key_bound(m, e, EditorAction::DeleteWordBackward) {
        delete_word_backward(m)
    } else if key_bound(m, e, EditorAction::DeleteWordForward) {
        delete_word_forward(m)
    } else if key_bound(m, e, EditorAction::DeleteCharBackward) || is_key(e, shift_backspace()) {
        backspace(m)
    } else if key_bound(m, e, EditorAction::DeleteCharForward) || is_key(e, shift_delete()) {
        forward_delete(m)
    } else if key_bound(m, e, EditorAction::Yank) {
        yank(m)
    } else if key_bound(m, e, EditorAction::YankPop) {
        yank_pop(m)
    } else if key_bound(m, e, EditorAction::CursorLineStart) {
        line_start(m)
    } else if key_bound(m, e, EditorAction::CursorLineEnd) {
        line_end(m)
    } else if key_bound(m, e, EditorAction::CursorWordLeft) {
        word_back(m)
    } else if key_bound(m, e, EditorAction::CursorWordRight) {
        word_forward(m)
    } else if key_bound(m, e, EditorAction::NewLine) {
        new_line(m)
    } else if key_bound(m, e, EditorAction::Submit) {
        submit_step(m)
    } else if key_bound(m, e, EditorAction::CursorUp) {
        up_step(m)
    } else if key_bound(m, e, EditorAction::CursorDown) {
        down_step(m)
    } else if key_bound(m, e, EditorAction::CursorRight) {
        move_cursor_by(m, 0, 1)
    } else if key_bound(m, e, EditorAction::CursorLeft) {
        move_cursor_by(m, 0, -1)
    } else if key_bound(m, e, EditorAction::PageUp) {
        page_scroll(m, -1)
    } else if key_bound(m, e, EditorAction::PageDown) {
        page_scroll(m, 1)
    } else if key_bound(m, e, EditorAction::JumpForward) {
        EdModel { jump: Some(JumpMode::Forward), ..m }
    } else if key_bound(m, e, EditorAction::JumpBackward) {
        EdModel { jump: Some(JumpMode::Backward), ..m }
    } else {
        match e {
            EventView::Text(t) => type_text(m, t),
            _ => m,
        }
    }
}

/// An input event applied to the editor (the cursor clamped first): a pending jump takes the
/// next printable character; pastes are inserted; copy does nothing; undo undoes; tab (without
/// completions) does nothing; bound keys act; other text is typed.
pub open spec fn editor_event(m0: EdModel, e: EventView) -> EdModel {
    let m = clamp(m0);
    let (m1, done) = match m.jump {
        Some(mode) => {
            let mj = EdModel { jump: None, ..m };
            if key_bound(m, e, EditorAction::JumpForward) || key_bound(m, e, EditorAction::JumpBackward) {
                (mj, true)
            } else {
                match e {
                    EventView::Text(t) => if t.len() > 0 && t[0] as u32 >= 32 {
                        (jump_to(mj, t[0], mode), true)
                    } else {
                        (mj, false)
                    },
                    _ => (mj, false),
                }
            }
        },
        None => (m, false),
    };
    if done {
        m1
    } else {
        match e {
            EventView::Paste(t) => if t.len() > 0 { paste(m1, t) } else { m1 },
            _ => if key_bound(m1, e, EditorAction::Copy) {
                m1
            } else if key_bound(m1, e, EditorAction::Undo) {
                undo(m1)
            } else if key_bound(m1, e, EditorAction::Tab) {
                m1
            } else {
                key_action(m1, e)
            },
        }
    }
}

/// The cursor placed at byte offset `b` of line `line` (both kept within the text; the column
/// moved back to the start of its character).
pub open spec fn set_cursor_spec(m: EdModel, line: int, b: int) -> EdModel {
    let l = if line < m.lines.len() { line } else { m.lines.len() - 1 };
    place(m, l, floor_char(m.lines[l], b))
}

} // verus!

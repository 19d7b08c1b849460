//! The multi-line editor widget: editing, kill ring, undo, history, large pastes, vertical
//! movement over wrapped lines and bordered rendering with scrolling.

use vstd::prelude::*;

use crate::callbacks::ValueHandler;
use crate::chars::{char_utf8_len, chars_of, spaces, extend_chars, repeat_char, slice_chars, string_of, utf8_length};
use crate::cursor::CursorPos;
use crate::digits::{decimal, decimal_chars};
use crate::widgets::editor::{expand_markers_from, replace_paste_markers};
use crate::component::{Component, Focusable};
use crate::keys::{EditorAction, EditorKeybindingsHandle, InputEvent};
use crate::style::StyleFn;
use crate::text::{grapheme_segments, is_space_char, is_whitespace_char, sat, text_width, visible_width, split_lines, split_lines_chars};
use crate::widgets::editor::{chunk_view, word_wrap, word_wrap_line, EditorHeightMode, EditorPasteMode, EditorTheme, TextChunk};
use crate::widgets::editor_model::{
    add_history, delete_to_line_end, delete_to_line_start, delete_word_backward, delete_word_forward,
    delete_yanked, find_char_from, newline_text, expand_paste_tabs, count_breaks, utf16_units, paste_marker,
    paste_slot, store_paste, line_visuals, visual_lines, find_row_from, floor_char, snap, snap_from, lemma_snap_bounds,
    sat_sub, rows_of, cursor_byte, LayoutRow, chunk_rows, line_layout, layout, layout_prefix, render_row,
    row_cursor_pos, cursor_shown, row_plain, row_cursor_inside, row_cursor_end, render_rows_shown, after_render, has_bottom_border, render_content_width, render_padding,
    first_cursor_row, shown_rows, type_text, key_bound, is_key, submit_step, up_step, down_step, key_action,
    editor_event, set_cursor_spec, shift_backspace, shift_delete, render_layout_width, shown_cursor, cursor_row, move_to_row, move_right_at, move_cursor_by, page_scroll, lemma_rows_in_range, spaced_paste, clean_paste, type_all, paste, submitted, after_submit, insert_yanked, jump_scan_backward, jump_scan_forward, jump_to, line_end,
    line_start, move_left, navigate_history, rfind_char_before, rotate_ring, undo, word_back, word_forward, yank,
    yank_pop, backspace, byte_col, clamp, cur, forward_delete, insert_parts, insert_text, join_lines, join_with_next, kill,
    leave_history, load_text, merge_down, merge_up, model_wf, new_line, normalize_breaks, place, push_undo, set_cur,
    snapshot_of, snapshot_wf, text_lines, type_char, with_action, EdModel, JumpMode, LastAction, Snapshot,
    event_submission, submit_key, submit_sends,
};
use crate::widgets::input::Input;
use crate::widgets::input::fire_value;
use crate::widgets::select_list::SelectListTheme;

verus! {

/// Text and cursor as saved for undo; the column counts characters.
struct EditorState {
    lines: Vec<Vec<char>>,
    cursor_line: usize,
    cursor_col: usize,
}

pub open spec fn lines_view(v: Seq<Vec<char>>) -> Seq<Seq<char>> {
    v.map_values(|l: Vec<char>| l@)
}

pub open spec fn string_views(v: Seq<String>) -> Seq<Seq<char>> {
    v.map_values(|s: String| s@)
}

spec fn state_view(s: EditorState) -> Snapshot {
    Snapshot { lines: lines_view(s.lines@), line: s.cursor_line as int, col: s.cursor_col as int }
}

/// The undo stack; every saved cursor lies within its saved text.
struct UndoStack {
    items: Vec<EditorState>,
}

impl UndoStack {
    #[verifier::type_invariant]
    spec fn saved_ok(self) -> bool {
        forall|i: int| 0 <= i < self.items@.len() ==> snapshot_wf(#[trigger] state_view(self.items@[i]))
    }

    spec fn states(&self) -> Seq<Snapshot> {
        self.items@.map_values(|s: EditorState| state_view(s))
    }

    fn new() -> (r: Self)
        ensures
            r.states() == Seq::<Snapshot>::empty(),
    {
        let r = UndoStack { items: Vec::new() };
        assert(r.states() =~= Seq::<Snapshot>::empty());
        r
    }

    /// Every saved state is well formed.
    fn check(&self)
        ensures
            forall|i: int| 0 <= i < self.states().len() ==> snapshot_wf(#[trigger] self.states()[i]),
    {
        proof {
            use_type_invariant(self);
            assert forall|i: int| 0 <= i < self.states().len() implies snapshot_wf(#[trigger] self.states()[i]) by {
                assert(self.states()[i] == state_view(self.items@[i]));
            }
        }
    }

    fn push(&mut self, s: EditorState)
        requires
            snapshot_wf(state_view(s)),
        ensures
            final(self).states() == old(self).states().push(state_view(s)),
    {
        proof {
            use_type_invariant(&*self);
        }
        let mut items: Vec<EditorState> = Vec::new();
        std::mem::swap(&mut items, &mut self.items);
        let ghost before = items@;
        items.push(s);
        assert(items@.map_values(|x: EditorState| state_view(x)) =~= before.map_values(|x: EditorState| state_view(x)).push(state_view(s)));
        assert forall|i: int| 0 <= i < items@.len() implies snapshot_wf(#[trigger] state_view(items@[i])) by {
            if i < before.len() {
                assert(items@[i] == before[i]);
            }
        }
        self.items = items;
    }

    fn pop(&mut self) -> (r: Option<EditorState>)
        ensures
            old(self).states().len() == 0 ==> r is None && final(self).states() == old(self).states(),
            old(self).states().len() > 0 ==> (r matches Some(s) && state_view(s) == old(self).states().last()
                && snapshot_wf(state_view(s))),
            old(self).states().len() > 0 ==> final(self).states() == old(self).states().drop_last(),
    {
        proof {
            use_type_invariant(&*self);
        }
        let mut items: Vec<EditorState> = Vec::new();
        std::mem::swap(&mut items, &mut self.items);
        let ghost before = items@;
        let r = items.pop();
        proof {
            if before.len() > 0 {
                assert(items@.map_values(|x: EditorState| state_view(x)) =~= before.map_values(|x: EditorState| state_view(x)).drop_last());
                assert(snapshot_wf(state_view(before[before.len() - 1])));
            } else {
                assert(items@ =~= before);
            }
            assert forall|i: int| 0 <= i < items@.len() implies snapshot_wf(#[trigger] state_view(items@[i])) by {
                assert(items@[i] == before[i]);
            }
        }
        self.items = items;
        r
    }

    fn clear(&mut self)
        ensures
            final(self).states() == Seq::<Snapshot>::empty(),
    {
        self.items = Vec::new();
        assert(self.states() =~= Seq::<Snapshot>::empty());
    }
}

/// Submitted texts, newest first; at most 100 are kept.
struct History {
    items: Vec<Vec<char>>,
}

impl History {
    #[verifier::type_invariant]
    spec fn bounded(self) -> bool {
        self.items@.len() <= 100
    }

    spec fn entries(&self) -> Seq<Seq<char>> {
        lines_view(self.items@)
    }

    fn new() -> (r: Self)
        ensures
            r.entries() == Seq::<Seq<char>>::empty(),
    {
        let r = History { items: Vec::new() };
        assert(r.entries() =~= Seq::<Seq<char>>::empty());
        r
    }

    fn len(&self) -> (r: usize)
        ensures
            r == self.entries().len(),
            r <= 100,
    {
        proof {
            use_type_invariant(self);
        }
        self.items.len()
    }

    fn get(&self, i: usize) -> (r: Vec<char>)
        requires
            i < self.entries().len(),
        ensures
            r@ == self.entries()[i as int],
    {
        copy_chars(&self.items[i])
    }

    /// Puts `t` in front, dropping the oldest entry beyond 100.
    fn add_front(&mut self, t: Vec<char>)
        ensures
            final(self).entries() == ({
                let h = seq![t@] + old(self).entries();
                if h.len() > 100 { h.drop_last() } else { h }
            }),
    {
        proof {
            use_type_invariant(&*self);
        }
        let mut items: Vec<Vec<char>> = Vec::new();
        std::mem::swap(&mut items, &mut self.items);
        let ghost h = items@;
        items.insert(0, t);
        if items.len() > 100 {
            items.pop();
        }
        proof {
            let hv = seq![t@] + lines_view(h);
            if hv.len() > 100 {
                assert(lines_view(items@) =~= hv.drop_last());
            } else {
                assert(lines_view(items@) =~= hv);
            }
        }
        self.items = items;
    }
}

spec fn pastes_view(p: Seq<(u32, String)>) -> Seq<(u32, Seq<char>)> {
    p.map_values(|e: (u32, String)| (e.0, e.1@))
}

/// Options of a new editor; unset options take their defaults.
pub struct EditorOptions {
    pub padding_x: Option<usize>,
    pub autocomplete_max_visible: Option<usize>,
    pub height_mode: Option<EditorHeightMode>,
    pub paste_mode: Option<EditorPasteMode>,
}

impl Default for EditorOptions {
    fn default() -> (r: Self)
        ensures
            r.padding_x is None,
            r.autocomplete_max_visible is None,
            r.height_mode is None,
            r.paste_mode is None,
    {
        EditorOptions { padding_x: None, autocomplete_max_visible: None, height_mode: None, paste_mode: None }
    }
}

/// A multi-line text editor with word wrapping, an undo stack, an emacs-style kill ring,
/// submission history and markers standing for large pastes.
pub struct Editor {
    lines: Vec<Vec<char>>,
    cursor_line: usize,
    cursor_col: usize,
    focused: bool,
    last_cursor_pos: Option<CursorPos>,
    select_list_theme: SelectListTheme,
    padding_x: usize,
    autocomplete_max_visible: usize,
    keybindings: EditorKeybindingsHandle,
    last_width: usize,
    scroll_offset: usize,
    border_color: Box<dyn StyleFn>,
    terminal_rows: usize,
    height_mode: EditorHeightMode,
    paste_mode: EditorPasteMode,
    preferred_visual_col: Option<usize>,
    jump_mode: Option<JumpMode>,
    disable_submit: bool,
    pastes: Vec<(u32, String)>,
    paste_counter: u32,
    kill_ring: Vec<Vec<char>>,
    last_action: Option<LastAction>,
    undo_stack: UndoStack,
    on_submit: Option<Box<dyn ValueHandler>>,
    on_change: Option<Box<dyn ValueHandler>>,
    history: History,
    history_index: isize,
    notices: Ghost<Seq<EditorNotice>>,
}

/// A call of one of the editor's handlers, with the text it was given.
pub enum EditorNotice {
    Changed(Seq<char>),
    Submitted(Seq<char>),
}

/// The calls a submission of `v` makes: the change handler hears the emptied text, then the
/// submit handler gets `v`; each only when set.
pub open spec fn submission_notices(change_set: bool, submit_set: bool, v: Seq<char>) -> Seq<EditorNotice> {
    (if change_set {
        seq![EditorNotice::Changed(Seq::empty())]
    } else {
        Seq::empty()
    }) + (if submit_set {
        seq![EditorNotice::Submitted(v)]
    } else {
        Seq::empty()
    })
}

/// A copy of a character vector.
fn copy_chars(v: &Vec<char>) -> (r: Vec<char>)
    ensures
        r@ == v@,
{
    let r = slice_chars(v.as_slice(), 0, v.len());
    assert(r@ =~= v@);
    r
}

/// A copy of a vector of lines.
fn copy_lines(v: &Vec<Vec<char>>) -> (r: Vec<Vec<char>>)
    ensures
        lines_view(r@) == lines_view(v@),
{
    let mut out: Vec<Vec<char>> = Vec::new();
    let mut i: usize = 0;
    while i < v.len()
        invariant
            i <= v@.len(),
            out@.len() == i,
            lines_view(out@) == lines_view(v@).subrange(0, i as int),
        decreases v@.len() - i,
    {
        let c = copy_chars(&v[i]);
        let ghost before = out@;
        out.push(c);
        proof {
            assert forall|k: int| 0 <= k < i + 1 implies #[trigger] lines_view(out@)[k] == lines_view(v@).subrange(0, i + 1)[k] by {
                if k < i {
                    assert(out@[k] == before[k]);
                    assert(lines_view(before)[k] == lines_view(v@).subrange(0, i as int)[k]);
                }
            }
            assert(lines_view(out@) =~= lines_view(v@).subrange(0, i + 1));
        }
        i += 1;
    }
    assert(lines_view(v@).subrange(0, v@.len() as int) =~= lines_view(v@));
    out
}

/// The lines joined with line breaks.
fn join_chars(lines: &Vec<Vec<char>>) -> (r: Vec<char>)
    ensures
        r@ == join_lines(lines_view(lines@)),
{
    let mut out: Vec<char> = Vec::new();
    let mut i: usize = 0;
    while i < lines.len()
        invariant
            i <= lines@.len(),
            out@ == join_lines(lines_view(lines@).subrange(0, i as int)),
        decreases lines@.len() - i,
    {
        let ghost prev = lines_view(lines@).subrange(0, i as int);
        let ghost next = lines_view(lines@).subrange(0, i + 1);
        assert(next.drop_last() =~= prev);
        if i > 0 {
            out.push('\n');
        }
        extend_chars(&mut out, lines[i].as_slice());
        proof {
            if i == 0 {
                assert(out@ =~= next[0]);
            } else {
                assert(out@ =~= join_lines(prev) + seq!['\n'] + next.last());
            }
        }
        i += 1;
    }
    assert(lines_view(lines@).subrange(0, lines@.len() as int) =~= lines_view(lines@));
    out
}

/// Line breaks normalized: `\r\n` and lone `\r` become `\n`.
fn normalize_chars(v: &Vec<char>) -> (r: Vec<char>)
    ensures
        r@ == normalize_breaks(v@),
{
    let mut out: Vec<char> = Vec::new();
    let mut i: usize = 0;
    let n = v.len();
    assert(v@.subrange(0, n as int) =~= v@);
    while i < n
        invariant
            n == v@.len(),
            i <= n,
            normalize_breaks(v@) == out@ + normalize_breaks(v@.subrange(i as int, n as int)),
        decreases n - i,
    {
        let ghost rest = v@.subrange(i as int, n as int);
        if v[i] == '\r' {
            out.push('\n');
            if i + 1 < n && v[i + 1] == '\n' {
                assert(rest.subrange(2, rest.len() as int) =~= v@.subrange(i + 2, n as int));
                i += 2;
            } else {
                assert(rest.drop_first() =~= v@.subrange(i + 1, n as int));
                i += 1;
            }
        } else {
            out.push(v[i]);
            assert(rest.drop_first() =~= v@.subrange(i + 1, n as int));
            i += 1;
        }
    }
    assert(v@.subrange(n as int, n as int) =~= Seq::<char>::empty());
    assert(out@ + Seq::<char>::empty() =~= out@);
    out
}

/// The lines of a text after normalizing line breaks.
fn text_lines_exec(text: &Vec<char>) -> (r: Vec<Vec<char>>)
    ensures
        lines_view(r@) == text_lines(text@),
        r@.len() >= 1,
{
    let norm = normalize_chars(text);
    let parts = split_lines_chars(norm.as_slice());
    proof {
        crate::text::lemma_split_lines_nonempty(norm@);
    }
    assert(lines_view(parts@) =~= text_lines(text@));
    parts
}

impl Editor {
    /// What the border style makes of `text`.
    pub closed spec fn border_styled(&self, text: Seq<char>) -> Seq<char> {
        self.border_color.styled(text)
    }

    /// The editing state as a mathematical value: text, cursor, undo and kill rings, history,
    /// pastes, scroll and layout settings, focus and key bindings. The border style is read
    /// through `border_styled`; the submit and change handlers and the autocomplete list's
    /// theme are not part of it.
    /// The handler calls made so far, in order.
    pub closed spec fn notices_view(&self) -> Seq<EditorNotice> {
        self.notices@
    }

    /// Which handlers are set: change, submit.
    pub closed spec fn handlers_set(&self) -> (bool, bool) {
        (self.on_change is Some, self.on_submit is Some)
    }

    pub closed spec fn model(&self) -> EdModel {
        EdModel {
            lines: lines_view(self.lines@),
            line: self.cursor_line as int,
            col: self.cursor_col as int,
            undo: self.undo_stack.states(),
            kill_ring: lines_view(self.kill_ring@),
            last_action: self.last_action,
            history: self.history.entries(),
            history_index: self.history_index as int,
            preferred: match self.preferred_visual_col {
                Some(p) => Some(p as int),
                None => None,
            },
            jump: self.jump_mode,
            pastes: pastes_view(self.pastes@),
            paste_counter: self.paste_counter,
            last_width: self.last_width as int,
            scroll_offset: self.scroll_offset as int,
            terminal_rows: self.terminal_rows as int,
            padding_x: self.padding_x as int,
            max_visible: self.autocomplete_max_visible as int,
            height_mode: self.height_mode,
            paste_mode: self.paste_mode,
            disable_submit: self.disable_submit,
            focused: self.focused,
            last_cursor: self.last_cursor_pos,
            bindings: self.keybindings.bindings@,
        }
    }

    /// The cursor lies within the text (and so does every cursor saved for undo).
    pub open spec fn wf(&self) -> bool {
        model_wf(self.model())
    }

    /// An empty editor.
    pub fn new(theme: EditorTheme, keybindings: EditorKeybindingsHandle, options: EditorOptions) -> (r: Self)
        ensures
            r.wf(),
            r.model().lines == seq![Seq::<char>::empty()],
            r.model().line == 0 && r.model().col == 0,
            r.model().undo.len() == 0,
            r.model().kill_ring.len() == 0,
            r.model().last_action is None,
            r.model().history.len() == 0,
            r.model().history_index == -1,
            r.model().preferred is None,
            r.model().jump is None,
            r.model().pastes.len() == 0,
            r.model().paste_counter == 0,
            r.model().last_width == 80,
            r.model().scroll_offset == 0,
            r.model().terminal_rows == 0,
            r.model().padding_x == (match options.padding_x {
                Some(p) => p as int,
                None => 0,
            }),
            r.model().max_visible == (match options.autocomplete_max_visible {
                Some(m) => if m < 3 { 3 } else if m > 20 { 20 } else { m as int },
                None => 5,
            }),
            r.model().height_mode == (match options.height_mode {
                Some(h) => h,
                None => EditorHeightMode::Default,
            }),
            r.model().paste_mode == (match options.paste_mode {
                Some(p) => p,
                None => EditorPasteMode::Default,
            }),
            !r.model().disable_submit,
            !r.model().focused,
            r.model().last_cursor is None,
            r.model().bindings == keybindings.bindings@,
    {
        let padding_x = match options.padding_x {
            Some(p) => p,
            None => 0,
        };
        let max_visible = match options.autocomplete_max_visible {
            Some(m) => m,
            None => 5,
        };
        let autocomplete_max_visible = if max_visible < 3 {
            3
        } else if max_visible > 20 {
            20
        } else {
            max_visible
        };
        let height_mode = match options.height_mode {
            Some(h) => h,
            None => EditorHeightMode::Default,
        };
        let paste_mode = match options.paste_mode {
            Some(p) => p,
            None => EditorPasteMode::Default,
        };
        let r = Editor {
            lines: vec![Vec::new()],
            cursor_line: 0,
            cursor_col: 0,
            focused: false,
            last_cursor_pos: None,
            select_list_theme: theme.select_list,
            padding_x,
            autocomplete_max_visible,
            keybindings,
            last_width: 80,
            scroll_offset: 0,
            border_color: theme.border_color,
            terminal_rows: 0,
            height_mode,
            paste_mode,
            preferred_visual_col: None,
            jump_mode: None,
            disable_submit: false,
            pastes: Vec::new(),
            paste_counter: 0,
            kill_ring: Vec::new(),
            last_action: None,
            undo_stack: UndoStack::new(),
            on_submit: None,
            on_change: None,
            notices: Ghost(Seq::empty()),
            history: History::new(),
            history_index: -1,
        };
        assert(r.model().lines =~= seq![Seq::<char>::empty()]);
        r
    }

    pub fn set_terminal_rows(&mut self, rows: usize)
        ensures
            final(self).model() == (EdModel { terminal_rows: rows as int, ..old(self).model() }),
    {
        self.terminal_rows = rows;
    }

    /// The lines of the text.
    pub fn get_lines(&self) -> (r: Vec<String>)
        ensures
            r@.map_values(|s: String| s@) == self.model().lines,
    {
        let mut out: Vec<String> = Vec::new();
        let mut i: usize = 0;
        while i < self.lines.len()
            invariant
                i <= self.lines@.len(),
                out@.len() == i,
                string_views(out@) == lines_view(self.lines@).subrange(0, i as int),
            decreases self.lines@.len() - i,
        {
            let t = string_of(self.lines[i].as_slice());
            let ghost before = out@;
            out.push(t);
            proof {
                assert forall|k: int| 0 <= k < i + 1 implies #[trigger] string_views(out@)[k] == lines_view(self.lines@).subrange(0, i + 1)[k] by {
                    if k < i {
                        assert(out@[k] == before[k]);
                        assert(string_views(before)[k] == lines_view(self.lines@).subrange(0, i as int)[k]);
                    }
                }
                assert(string_views(out@) =~= lines_view(self.lines@).subrange(0, i + 1));
            }
            i += 1;
        }
        assert(lines_view(self.lines@).subrange(0, self.lines@.len() as int) =~= lines_view(self.lines@));
        assert(out@.map_values(|s: String| s@) == string_views(out@));
        out
    }

    /// The text, lines joined with line breaks.
    pub fn get_text(&self) -> (r: String)
        ensures
            r@ == join_lines(self.model().lines),
    {
        string_of(join_chars(&self.lines).as_slice())
    }

    /// The text with every paste marker replaced by the stored paste.
    pub fn get_expanded_text(&self) -> (r: String)
        ensures
            r@ == expand_markers_from(join_lines(self.model().lines), 0, self.model().pastes),
    {
        let t = self.get_text();
        replace_paste_markers(t.as_str(), self.pastes.as_slice())
    }

    /// Line and column of the cursor; the column counts bytes of the line's UTF-8 text.
    pub fn get_cursor(&self) -> (r: (usize, usize))
        requires
            self.wf(),
        ensures
            r.0 == self.model().line,
            r.1 == sat(byte_col(cur(self.model()), self.model().col) as nat),
    {
        let line = &self.lines[self.cursor_line];
        let prefix = slice_chars(line.as_slice(), 0, self.cursor_col);
        let b = utf8_length(prefix.as_slice());
        (self.cursor_line, b)
    }

    pub fn set_padding_x(&mut self, padding: usize)
        ensures
            final(self).model() == (EdModel { padding_x: padding as int, ..old(self).model() }),
    {
        self.padding_x = padding;
    }

    pub fn get_padding_x(&self) -> (r: usize)
        ensures
            r == self.model().padding_x,
    {
        self.padding_x
    }

    /// Rows of the autocomplete list, kept within `3..=20`.
    pub fn set_autocomplete_max_visible(&mut self, max_visible: usize)
        ensures
            final(self).model() == (EdModel {
                max_visible: if max_visible < 3 { 3 } else if max_visible > 20 { 20 } else { max_visible as int },
                ..old(self).model()
            }),
    {
        self.autocomplete_max_visible = if max_visible < 3 {
            3
        } else if max_visible > 20 {
            20
        } else {
            max_visible
        };
    }

    pub fn get_autocomplete_max_visible(&self) -> (r: usize)
        ensures
            r == self.model().max_visible,
    {
        self.autocomplete_max_visible
    }

    pub fn set_border_color(&mut self, border_color: Box<dyn StyleFn>)
        ensures
            final(self).model() == old(self).model(),
    {
        self.border_color = border_color;
    }

    pub fn set_on_submit(&mut self, handler: Option<Box<dyn ValueHandler>>)
        ensures
            final(self).model() == old(self).model(),
            final(self).handlers_set() == (old(self).handlers_set().0, handler is Some),
            final(self).notices_view() == old(self).notices_view(),
    {
        self.on_submit = handler;
    }

    pub fn set_on_change(&mut self, handler: Option<Box<dyn ValueHandler>>)
        ensures
            final(self).model() == old(self).model(),
            final(self).handlers_set() == (handler is Some, old(self).handlers_set().1),
            final(self).notices_view() == old(self).notices_view(),
    {
        self.on_change = handler;
    }

    pub fn set_disable_submit(&mut self, disabled: bool)
        ensures
            final(self).model() == (EdModel { disable_submit: disabled, ..old(self).model() }),
    {
        self.disable_submit = disabled;
    }

    /// Tells `on_change` the current text.
    fn emit_change(&mut self)
        ensures
            final(self).model() == old(self).model(),
            final(self).handlers_set() == old(self).handlers_set(),
            final(self).notices_view() == old(self).notices_view() + if old(self).handlers_set().0 {
                seq![EditorNotice::Changed(join_lines(old(self).model().lines))]
            } else {
                Seq::empty()
            },
    {
        if self.on_change.is_some() {
            let text = self.get_text();
            let ghost t = text@;
            fire_value(&mut self.on_change, text);
            self.notices = Ghost(self.notices@.push(EditorNotice::Changed(t)));
        } else {
            assert(self.notices@ + Seq::<EditorNotice>::empty() =~= self.notices@);
        }
    }

    /// Keeps the cursor within the text: an empty line list gets one empty line, the cursor
    /// line and column are clamped.
    fn clamp_cursor(&mut self)
        ensures
            final(self).wf(),
            final(self).border_color == old(self).border_color,
            final(self).model() == clamp(old(self).model()),
            final(self).handlers_set() == old(self).handlers_set(),
            final(self).notices_view() == old(self).notices_view(),
    {
        self.undo_stack.check();
        if self.lines.len() == 0 {
            self.lines.push(Vec::new());
            self.cursor_line = 0;
            self.cursor_col = 0;
            assert(self.model() =~= clamp(old(self).model()));
            return;
        }
        if self.cursor_line >= self.lines.len() {
            self.cursor_line = self.lines.len() - 1;
        }
        let n = self.lines[self.cursor_line].len();
        if self.cursor_col > n {
            self.cursor_col = n;
        }
        assert(self.model() =~= clamp(old(self).model()));
    }
}


/// Appends copies of `src[a..b]` to `out`.
fn append_lines(out: &mut Vec<Vec<char>>, src: &Vec<Vec<char>>, a: usize, b: usize)
    requires
        a <= b <= src@.len(),
    ensures
        lines_view(final(out)@) == lines_view(old(out)@) + lines_view(src@).subrange(a as int, b as int),
{
    let mut k = a;
    while k < b
        invariant
            a <= k <= b <= src@.len(),
            lines_view(out@) == lines_view(old(out)@) + lines_view(src@).subrange(a as int, k as int),
        decreases b - k,
    {
        let c = copy_chars(&src[k]);
        let ghost before = out@;
        out.push(c);
        proof {
            assert(lines_view(out@) =~= lines_view(before).push(c@));
            assert(lines_view(old(out)@) + lines_view(src@).subrange(a as int, k + 1) =~= lines_view(old(out)@)
                + lines_view(src@).subrange(a as int, k as int) + seq![src@[k as int]@]);
        }
        k += 1;
    }
}

impl Editor {
    /// Saves text and cursor for undo.
    fn save_undo(&mut self)
        requires
            old(self).wf(),
        ensures
            final(self).wf(),
            final(self).model() == push_undo(old(self).model()),
    {
        let s = EditorState { lines: copy_lines(&self.lines), cursor_line: self.cursor_line, cursor_col: self.cursor_col };
        assert(state_view(s) =~= snapshot_of(self.model()));
        self.undo_stack.push(s);
        assert(self.model() =~= push_undo(old(self).model()));
        self.undo_stack.check();
    }

    /// Replaces the current line and places the cursor in it.
    fn replace_cur(&mut self, l: Vec<char>, col: usize)
        requires
            old(self).wf(),
            col <= l@.len(),
        ensures
            final(self).wf(),
            final(self).model() == place(set_cur(old(self).model(), l@), old(self).model().line, col as int),
    {
        let i = self.cursor_line;
        self.lines[i] = l;
        self.cursor_col = col;
        self.preferred_visual_col = None;
        assert(self.model() =~= place(set_cur(old(self).model(), l@), old(self).model().line, col as int));
        self.undo_stack.check();
    }

    /// Replaces the current line; the cursor stays.
    fn set_cur_line(&mut self, l: Vec<char>)
        requires
            old(self).wf(),
            old(self).model().col <= l@.len(),
        ensures
            final(self).wf(),
            final(self).model() == set_cur(old(self).model(), l@),
    {
        let i = self.cursor_line;
        self.lines[i] = l;
        assert(self.model() =~= set_cur(old(self).model(), l@));
        self.undo_stack.check();
    }

    /// Characters `a..b` of the current line.
    fn cur_slice(&self, a: usize, b: usize) -> (r: Vec<char>)
        requires
            self.wf(),
            a <= b <= cur(self.model()).len(),
        ensures
            r@ == cur(self.model()).subrange(a as int, b as int),
    {
        slice_chars(self.lines[self.cursor_line].as_slice(), a, b)
    }

    fn cur_len(&self) -> (r: usize)
        requires
            self.wf(),
        ensures
            r == cur(self.model()).len(),
    {
        self.lines[self.cursor_line].len()
    }

    /// Joins the current line onto the previous one.
    fn merge_up_exec(&mut self)
        requires
            old(self).wf(),
            old(self).model().line > 0,
        ensures
            final(self).wf(),
            final(self).model() == merge_up(old(self).model()),
    {
        let ghost m = self.model();
        let i = self.cursor_line;
        let current = self.lines.remove(i);
        let mut prev = copy_chars(&self.lines[i - 1]);
        let plen = prev.len();
        extend_chars(&mut prev, current.as_slice());
        self.lines[i - 1] = prev;
        self.cursor_line = i - 1;
        self.cursor_col = plen;
        self.preferred_visual_col = None;
        assert(lines_view(self.lines@) =~= join_with_next(m.lines, m.line - 1));
        assert(self.model() =~= merge_up(m));
        self.undo_stack.check();
    }

    /// Joins the next line onto the current one.
    fn merge_down_exec(&mut self)
        requires
            old(self).wf(),
            old(self).model().line + 1 < old(self).model().lines.len(),
        ensures
            final(self).wf(),
            final(self).model() == merge_down(old(self).model()),
    {
        let ghost m = self.model();
        let i = self.cursor_line;
        let n = self.lines.len();
        assert(i + 1 < n);
        let next = self.lines.remove(i + 1);
        let mut c = copy_chars(&self.lines[i]);
        extend_chars(&mut c, next.as_slice());
        self.lines[i] = c;
        assert(lines_view(self.lines@) =~= join_with_next(m.lines, m.line));
        assert(self.model() =~= merge_down(m));
        self.undo_stack.check();
    }

    /// Adds killed text to the kill ring.
    fn kill_chars(&mut self, t: Vec<char>, prepend: bool)
        requires
            old(self).wf(),
        ensures
            final(self).wf(),
            final(self).model() == kill(old(self).model(), t@, prepend),
    {
        if t.len() == 0 {
            return;
        }
        let is_kill = match self.last_action {
            Some(LastAction::Kill) => true,
            _ => false,
        };
        if is_kill && self.kill_ring.len() > 0 {
            let ghost ring = self.kill_ring@;
            let last = match self.kill_ring.pop() {
                Some(l) => l,
                None => Vec::new(),
            };
            let entry = if prepend {
                let mut e = t;
                extend_chars(&mut e, last.as_slice());
                e
            } else {
                let mut e = last;
                extend_chars(&mut e, t.as_slice());
                e
            };
            self.kill_ring.push(entry);
            assert(lines_view(self.kill_ring@) =~= lines_view(ring).drop_last().push(entry@));
        } else {
            let ghost ring = self.kill_ring@;
            self.kill_ring.push(t);
            assert(lines_view(self.kill_ring@) =~= lines_view(ring).push(t@));
        }
        assert(self.model() =~= kill(old(self).model(), t@, prepend));
        self.undo_stack.check();
    }

    /// Adds killed text to the kill ring: a kill right after a kill extends the last entry
    /// (in front when `prepend`).
    pub fn add_to_kill_ring(&mut self, text: &str, prepend: bool)
        requires
            old(self).wf(),
        ensures
            final(self).wf(),
            final(self).model() == kill(old(self).model(), text@, prepend),
    {
        self.kill_chars(chars_of(text), prepend);
    }

    /// Forgets the last action, so that the next kill starts a new kill-ring entry and the
    /// next typed word a new undo step.
    pub fn clear_last_action(&mut self)
        ensures
            final(self).model() == with_action(old(self).model(), None),
    {
        self.last_action = None;
        assert(self.model() =~= with_action(old(self).model(), None));
    }

    /// Inserts lines `parts` at the cursor.
    fn insert_parts_exec(&mut self, parts: &Vec<Vec<char>>)
        requires
            old(self).wf(),
            parts@.len() >= 1,
        ensures
            final(self).wf(),
            final(self).model() == insert_parts(old(self).model(), lines_view(parts@)),
    {
        let ghost m = self.model();
        let i = self.cursor_line;
        let c = self.cursor_col;
        let len = self.cur_len();
        let before = self.cur_slice(0, c);
        let after = self.cur_slice(c, len);
        let n = parts.len();
        if n == 1 {
            let mut l = before;
            extend_chars(&mut l, parts[0].as_slice());
            let col = l.len();
            extend_chars(&mut l, after.as_slice());
            self.replace_cur(l, col);
            assert(self.model() =~= insert_parts(m, lines_view(parts@)));
        } else {
            let mut out: Vec<Vec<char>> = Vec::new();
            append_lines(&mut out, &self.lines, 0, i);
            let mut first = before;
            extend_chars(&mut first, parts[0].as_slice());
            let ghost o1 = out@;
            out.push(first);
            assert(lines_view(out@) =~= lines_view(o1).push(first@));
            append_lines(&mut out, parts, 1, n - 1);
            let mut last = copy_chars(&parts[n - 1]);
            let col = last.len();
            extend_chars(&mut last, after.as_slice());
            let ghost o2 = out@;
            out.push(last);
            assert(lines_view(out@) =~= lines_view(o2).push(last@));
            let at = out.len() - 1;
            append_lines(&mut out, &self.lines, i + 1, self.lines.len());
            proof {
                let pv = lines_view(parts@);
                assert(lines_view(out@) =~= m.lines.subrange(0, m.line) + seq![m.lines[m.line].subrange(0, m.col) + pv[0]]
                    + pv.subrange(1, n - 1) + seq![pv[n - 1] + m.lines[m.line].subrange(m.col, m.lines[m.line].len() as int)]
                    + m.lines.subrange(m.line + 1, m.lines.len() as int));
                assert(at == m.line + n - 1);
                assert(lines_view(out@)[at as int] == last@);
            }
            self.lines = out;
            self.cursor_line = at;
            self.cursor_col = col;
            self.preferred_visual_col = None;
            assert(self.model() =~= insert_parts(m, lines_view(parts@)));
            self.undo_stack.check();
        }
    }

    /// Inserts text at the cursor; line breaks (normalized) split lines.
    fn insert_text_internal(&mut self, text: &Vec<char>)
        requires
            old(self).wf(),
        ensures
            final(self).wf(),
            final(self).model() == insert_text(old(self).model(), text@),
    {
        if text.len() == 0 {
            return;
        }
        let parts = text_lines_exec(text);
        self.insert_parts_exec(&parts);
        self.emit_change();
    }

    /// Replaces the whole text; the cursor goes to its end.
    fn load_text_exec(&mut self, text: &Vec<char>)
        requires
            old(self).wf(),
        ensures
            final(self).wf(),
            final(self).model() == load_text(old(self).model(), text@),
    {
        let parts = text_lines_exec(text);
        let last = parts.len() - 1;
        let col = parts[last].len();
        self.lines = parts;
        self.cursor_line = last;
        self.cursor_col = col;
        self.preferred_visual_col = None;
        self.scroll_offset = 0;
        assert(self.model() =~= load_text(old(self).model(), text@));
        self.undo_stack.check();
        self.emit_change();
    }

    /// Replaces the text (an undo step when it changes) and leaves history browsing.
    pub fn set_text(&mut self, text: &str)
        requires
            old(self).wf(),
        ensures
            final(self).wf(),
            final(self).model() == ({
                let m1 = leave_history(with_action(old(self).model(), None));
                let m2 = if join_lines(m1.lines) != text@ { push_undo(m1) } else { m1 };
                load_text(m2, text@)
            }),
    {
        self.last_action = None;
        self.history_index = -1;
        proof {
            assert(self.wf());
        }
        let current = join_chars(&self.lines);
        let t = chars_of(text);
        if !chars_equal(&current, &t) {
            self.save_undo();
        }
        self.load_text_exec(&t);
    }

    /// Inserts text at the cursor as one undo step.
    pub fn insert_text_at_cursor(&mut self, text: &str)
        requires
            old(self).wf(),
        ensures
            final(self).wf(),
            final(self).model() == (if text@.len() == 0 {
                old(self).model()
            } else {
                insert_text(leave_history(with_action(push_undo(old(self).model()), None)), text@)
            }),
    {
        let t = chars_of(text);
        if t.len() == 0 {
            return;
        }
        self.save_undo();
        self.last_action = None;
        self.history_index = -1;
        self.insert_text_internal(&t);
    }

    /// Types one character (see `type_char`).
    fn insert_character(&mut self, ch: char, from_paste: bool)
        requires
            old(self).wf(),
        ensures
            final(self).wf(),
            final(self).model() == type_char(old(self).model(), ch, from_paste),
    {
        let ghost m1 = leave_history(old(self).model());
        self.history_index = -1;
        assert(self.model() =~= m1);
        if !from_paste {
            let new_step = is_whitespace_char(ch) || match self.last_action {
                Some(LastAction::TypeWord) => false,
                _ => true,
            };
            assert(new_step == (is_space_char(ch) || m1.last_action != Some(LastAction::TypeWord)));
            if new_step {
                self.save_undo();
            }
            let ghost m3 = self.model();
            self.last_action = Some(LastAction::TypeWord);
            assert(self.model() =~= with_action(m3, Some(LastAction::TypeWord)));
        }
        let ghost m2 = self.model();
        let c = self.cursor_col;
        let len = self.cur_len();
        let mut l = self.cur_slice(0, c);
        l.push(ch);
        let col = l.len();
        let tail = self.cur_slice(c, len);
        extend_chars(&mut l, tail.as_slice());
        assert(l@ =~= cur(m2).subrange(0, m2.col) + seq![ch] + cur(m2).subrange(m2.col, cur(m2).len() as int));
        self.replace_cur(l, col);
        self.emit_change();
    }

    /// Splits the line at the cursor.
    fn add_new_line(&mut self)
        requires
            old(self).wf(),
        ensures
            final(self).wf(),
            final(self).model() == new_line(old(self).model()),
    {
        self.history_index = -1;
        self.last_action = None;
        self.save_undo();
        let ghost m = self.model();
        let i = self.cursor_line;
        let c = self.cursor_col;
        let len = self.cur_len();
        let before = self.cur_slice(0, c);
        let after = self.cur_slice(c, len);
        let n = self.lines.len();
        assert(i < n);
        self.lines[i] = before;
        self.lines.insert(i + 1, after);
        self.cursor_line = i + 1;
        self.cursor_col = 0;
        self.preferred_visual_col = None;
        assert(lines_view(self.lines@) =~= m.lines.subrange(0, m.line) + seq![before@, after@]
            + m.lines.subrange(m.line + 1, m.lines.len() as int));
        assert(self.model() =~= new_line(old(self).model()));
        self.undo_stack.check();
        self.emit_change();
    }

    /// Deletes the grapheme before the cursor, or joins the line onto the previous one.
    pub fn handle_backspace(&mut self)
        requires
            old(self).wf(),
        ensures
            final(self).wf(),
            final(self).model() == backspace(old(self).model()),
    {
        self.history_index = -1;
        self.last_action = None;
        if self.cursor_col > 0 {
            self.save_undo();
            let c = self.cursor_col;
            let len = self.cur_len();
            let t = Input::left_of(&self.lines[self.cursor_line], c);
            let mut l = self.cur_slice(0, t);
            let tail = self.cur_slice(c, len);
            extend_chars(&mut l, tail.as_slice());
            self.replace_cur(l, t);
        } else if self.cursor_line > 0 {
            self.save_undo();
            self.merge_up_exec();
        }
        self.emit_change();
    }

    /// Deletes the grapheme after the cursor, or joins the next line onto this one.
    pub fn handle_forward_delete(&mut self)
        requires
            old(self).wf(),
        ensures
            final(self).wf(),
            final(self).model() == forward_delete(old(self).model()),
    {
        self.history_index = -1;
        self.last_action = None;
        let len = self.cur_len();
        if self.cursor_col < len {
            self.save_undo();
            let c = self.cursor_col;
            let t = Input::right_of(&self.lines[self.cursor_line], c);
            let mut l = self.cur_slice(0, c);
            let tail = self.cur_slice(t, len);
            extend_chars(&mut l, tail.as_slice());
            self.set_cur_line(l);
        } else if self.lines.len() - self.cursor_line > 1 {
            self.save_undo();
            self.merge_down_exec();
        }
        self.emit_change();
    }
}


impl Editor {
    /// Kills the text before the cursor (or the line break before the line).
    fn delete_to_start_of_line(&mut self)
        requires
            old(self).wf(),
        ensures
            final(self).wf(),
            final(self).model() == delete_to_line_start(old(self).model()),
    {
        let ghost m1 = leave_history(old(self).model());
        self.history_index = -1;
        assert(self.model() =~= m1);
        let c = self.cursor_col;
        let len = self.cur_len();
        if c > 0 {
            self.save_undo();
            let deleted = self.cur_slice(0, c);
            let rest = self.cur_slice(c, len);
            self.kill_chars(deleted, true);
            let ghost mk = self.model();
            self.last_action = Some(LastAction::Kill);
            assert(self.model() =~= with_action(mk, Some(LastAction::Kill)));
            self.replace_cur(rest, 0);
        } else if self.cursor_line > 0 {
            self.save_undo();
            let nl = vec!['\n'];
            assert(nl@ =~= newline_text());
            self.kill_chars(nl, true);
            let ghost mk = self.model();
            self.last_action = Some(LastAction::Kill);
            assert(self.model() =~= with_action(mk, Some(LastAction::Kill)));
            self.merge_up_exec();
        }
        self.emit_change();
    }

    /// Kills the text after the cursor (or the line break after the line).
    fn delete_to_end_of_line(&mut self)
        requires
            old(self).wf(),
        ensures
            final(self).wf(),
            final(self).model() == delete_to_line_end(old(self).model()),
    {
        let ghost m1 = leave_history(old(self).model());
        self.history_index = -1;
        assert(self.model() =~= m1);
        let c = self.cursor_col;
        let len = self.cur_len();
        if c < len {
            self.save_undo();
            let deleted = self.cur_slice(c, len);
            let rest = self.cur_slice(0, c);
            self.kill_chars(deleted, false);
            let ghost mk = self.model();
            self.last_action = Some(LastAction::Kill);
            assert(self.model() =~= with_action(mk, Some(LastAction::Kill)));
            self.set_cur_line(rest);
        } else if self.lines.len() - self.cursor_line > 1 {
            self.save_undo();
            let nl = vec!['\n'];
            assert(nl@ =~= newline_text());
            self.kill_chars(nl, false);
            let ghost mk = self.model();
            self.last_action = Some(LastAction::Kill);
            assert(self.model() =~= with_action(mk, Some(LastAction::Kill)));
            self.merge_down_exec();
        }
        self.emit_change();
    }

    /// Kills the word before the cursor (or the line break before the line).
    pub fn delete_word_backwards(&mut self)
        requires
            old(self).wf(),
        ensures
            final(self).wf(),
            final(self).model() == delete_word_backward(old(self).model()),
    {
        let ghost m1 = leave_history(old(self).model());
        self.history_index = -1;
        assert(self.model() =~= m1);
        let c = self.cursor_col;
        let len = self.cur_len();
        if c == 0 {
            if self.cursor_line > 0 {
                self.save_undo();
                let nl = vec!['\n'];
                assert(nl@ =~= newline_text());
                self.kill_chars(nl, true);
                let ghost mk = self.model();
                self.last_action = Some(LastAction::Kill);
                assert(self.model() =~= with_action(mk, Some(LastAction::Kill)));
                self.merge_up_exec();
            }
        } else {
            self.save_undo();
            let from = Input::word_left_of(&self.lines[self.cursor_line], c);
            let deleted = self.cur_slice(from, c);
            let mut l = self.cur_slice(0, from);
            let tail = self.cur_slice(c, len);
            extend_chars(&mut l, tail.as_slice());
            self.kill_chars(deleted, true);
            let ghost mk = self.model();
            self.last_action = Some(LastAction::Kill);
            assert(self.model() =~= with_action(mk, Some(LastAction::Kill)));
            self.replace_cur(l, from);
        }
        self.emit_change();
    }

    /// Kills the word after the cursor (or the line break after the line).
    pub fn delete_word_forwards(&mut self)
        requires
            old(self).wf(),
        ensures
            final(self).wf(),
            final(self).model() == delete_word_forward(old(self).model()),
    {
        let ghost m1 = leave_history(old(self).model());
        self.history_index = -1;
        assert(self.model() =~= m1);
        let c = self.cursor_col;
        let len = self.cur_len();
        if c >= len {
            if self.lines.len() - self.cursor_line > 1 {
                self.save_undo();
                let nl = vec!['\n'];
                assert(nl@ =~= newline_text());
                self.kill_chars(nl, false);
                let ghost mk = self.model();
                self.last_action = Some(LastAction::Kill);
                assert(self.model() =~= with_action(mk, Some(LastAction::Kill)));
                self.merge_down_exec();
            }
        } else {
            self.save_undo();
            let to = Input::word_right_of(&self.lines[self.cursor_line], c);
            let deleted = self.cur_slice(c, to);
            let mut l = self.cur_slice(0, c);
            let tail = self.cur_slice(to, len);
            extend_chars(&mut l, tail.as_slice());
            self.kill_chars(deleted, false);
            let ghost mk = self.model();
            self.last_action = Some(LastAction::Kill);
            assert(self.model() =~= with_action(mk, Some(LastAction::Kill)));
            self.replace_cur(l, c);
        }
        self.emit_change();
    }

    /// Inserts killed text at the cursor.
    fn insert_yanked_text(&mut self, text: &Vec<char>)
        requires
            old(self).wf(),
        ensures
            final(self).wf(),
            final(self).model() == insert_yanked(old(self).model(), text@),
    {
        self.history_index = -1;
        let parts = split_lines_chars(text.as_slice());
        proof {
            crate::text::lemma_split_lines_nonempty(text@);
            assert(lines_view(parts@) =~= split_lines(text@));
        }
        self.insert_parts_exec(&parts);
        self.emit_change();
    }

    /// Inserts the newest kill-ring entry.
    pub fn yank(&mut self)
        requires
            old(self).wf(),
        ensures
            final(self).wf(),
            final(self).model() == yank(old(self).model()),
    {
        let n = self.kill_ring.len();
        if n == 0 {
            return;
        }
        self.save_undo();
        let text = copy_chars(&self.kill_ring[n - 1]);
        self.insert_yanked_text(&text);
        self.last_action = Some(LastAction::Yank);
    }

    /// Removes the text the last yank inserted before the cursor.
    fn delete_yanked_text(&mut self)
        requires
            old(self).wf(),
            old(self).model().kill_ring.len() > 0,
        ensures
            final(self).wf(),
            final(self).model() == delete_yanked(old(self).model()),
    {
        let ghost m = self.model();
        let y = copy_chars(&self.kill_ring[self.kill_ring.len() - 1]);
        if y.len() == 0 {
            return;
        }
        let parts = split_lines_chars(y.as_slice());
        proof {
            crate::text::lemma_split_lines_nonempty(y@);
        }
        let c = self.cursor_col;
        let len = self.cur_len();
        if parts.len() == 1 {
            let start = if c >= y.len() { c - y.len() } else { 0 };
            let mut l = self.cur_slice(0, start);
            let tail = self.cur_slice(c, len);
            extend_chars(&mut l, tail.as_slice());
            self.replace_cur(l, start);
        } else {
            let i = self.cursor_line;
            let k = parts.len() - 1;
            let start_line = if i >= k { i - k } else { 0 };
            let first_len = self.lines[start_line].len();
            let p0 = parts[0].len();
            let start_col = if first_len >= p0 { first_len - p0 } else { 0 };
            let mut joined = slice_chars(self.lines[start_line].as_slice(), 0, start_col);
            let tail = self.cur_slice(c, len);
            extend_chars(&mut joined, tail.as_slice());
            let mut out: Vec<Vec<char>> = Vec::new();
            append_lines(&mut out, &self.lines, 0, start_line);
            let ghost o1 = out@;
            out.push(joined);
            assert(lines_view(out@) =~= lines_view(o1).push(joined@));
            let nlines = self.lines.len();
            assert(i < nlines);
            append_lines(&mut out, &self.lines, i + 1, nlines);
            proof {
                let pv = split_lines(y@);
                assert(lines_view(parts@) =~= pv);
                assert(lines_view(out@) =~= m.lines.subrange(0, start_line as int) + seq![
                    m.lines[start_line as int].subrange(0, start_col as int) + m.lines[m.line].subrange(m.col, m.lines[m.line].len() as int)]
                    + m.lines.subrange(m.line + 1, m.lines.len() as int));
            }
            self.lines = out;
            self.cursor_line = start_line;
            self.cursor_col = start_col;
            self.preferred_visual_col = None;
            assert(self.model() =~= delete_yanked(m));
            self.undo_stack.check();
        }
        self.emit_change();
    }

    /// Replaces the text of the last yank by the next older kill-ring entry.
    pub fn yank_pop(&mut self)
        requires
            old(self).wf(),
        ensures
            final(self).wf(),
            final(self).model() == yank_pop(old(self).model()),
    {
        let is_yank = match self.last_action {
            Some(LastAction::Yank) => true,
            _ => false,
        };
        if !is_yank || self.kill_ring.len() <= 1 {
            return;
        }
        self.save_undo();
        self.delete_yanked_text();
        let ghost ring = self.kill_ring@;
        let last = match self.kill_ring.pop() {
            Some(l) => l,
            None => Vec::new(),
        };
        self.kill_ring.insert(0, last);
        assert(lines_view(self.kill_ring@) =~= rotate_ring(lines_view(ring)));
        let n = self.kill_ring.len();
        let text = copy_chars(&self.kill_ring[n - 1]);
        self.insert_yanked_text(&text);
        self.last_action = Some(LastAction::Yank);
    }

    /// Restores the text and cursor saved last.
    fn undo_exec(&mut self)
        requires
            old(self).wf(),
        ensures
            final(self).wf(),
            final(self).model() == undo(old(self).model()),
    {
        self.history_index = -1;
        let ghost m1 = self.model();
        match self.undo_stack.pop() {
            None => {
                assert(self.model() =~= undo(old(self).model()));
            },
            Some(s) => {
                self.lines = s.lines;
                self.cursor_line = s.cursor_line;
                self.cursor_col = s.cursor_col;
                self.last_action = None;
                self.preferred_visual_col = None;
                assert(self.model() =~= undo(old(self).model()));
                self.undo_stack.check();
                self.emit_change();
            },
        }
    }

    /// Adds a submitted text to the history (see `add_history`).
    pub fn add_to_history(&mut self, text: &str)
        requires
            old(self).wf(),
        ensures
            final(self).wf(),
            final(self).model() == add_history(old(self).model(), text@),
    {
        let v = chars_of(text);
        let t = crate::widgets::select_list::trim_chars(v.as_slice());
        if t.len() == 0 {
            return;
        }
        if self.history.len() > 0 {
            let first = self.history.get(0);
            if chars_equal(&first, &t) {
                return;
            }
        }
        self.history.add_front(t);
        assert(self.model() =~= add_history(old(self).model(), text@));
        self.undo_stack.check();
    }

    /// Browses the history (-1 older, 1 newer).
    fn navigate_history(&mut self, direction: isize)
        requires
            old(self).wf(),
            direction == -1 || direction == 1,
        ensures
            final(self).wf(),
            final(self).model() == navigate_history(old(self).model(), direction as int),
    {
        self.last_action = None;
        let n = self.history.len();
        if n == 0 {
            return;
        }
        let hi = self.history_index;
        let ni: i128 = hi as i128 - direction as i128;
        if ni < -1 || (ni >= 0 && ni >= n as i128) {
            return;
        }
        if hi == -1 && ni >= 0 {
            self.save_undo();
        }
        let nidx = ni as isize;
        self.history_index = nidx;
        let ghost m3 = self.model();
        if nidx == -1 {
            let empty: Vec<char> = Vec::new();
            self.load_text_exec(&empty);
        } else {
            let text = self.history.get(nidx as usize);
            self.load_text_exec(&text);
        }
    }

    pub fn move_to_line_start(&mut self)
        requires
            old(self).wf(),
        ensures
            final(self).wf(),
            final(self).model() == line_start(old(self).model()),
    {
        self.last_action = None;
        self.cursor_col = 0;
        self.preferred_visual_col = None;
        assert(self.model() =~= line_start(old(self).model()));
        self.undo_stack.check();
    }

    pub fn move_to_line_end(&mut self)
        requires
            old(self).wf(),
        ensures
            final(self).wf(),
            final(self).model() == line_end(old(self).model()),
    {
        self.last_action = None;
        self.cursor_col = self.cur_len();
        self.preferred_visual_col = None;
        assert(self.model() =~= line_end(old(self).model()));
        self.undo_stack.check();
    }

    /// Moves one word back (see `word_back`).
    pub fn move_word_backwards(&mut self)
        requires
            old(self).wf(),
        ensures
            final(self).wf(),
            final(self).model() == word_back(old(self).model()),
    {
        self.last_action = None;
        let c = self.cursor_col;
        if c == 0 {
            if self.cursor_line > 0 {
                self.cursor_line = self.cursor_line - 1;
                self.cursor_col = self.cur_len();
                self.preferred_visual_col = None;
            }
        } else {
            self.cursor_col = Input::word_left_of(&self.lines[self.cursor_line], c);
            self.preferred_visual_col = None;
        }
        assert(self.model() =~= word_back(old(self).model()));
        self.undo_stack.check();
    }

    /// Moves one word forward (see `word_forward`).
    pub fn move_word_forwards(&mut self)
        requires
            old(self).wf(),
        ensures
            final(self).wf(),
            final(self).model() == word_forward(old(self).model()),
    {
        self.last_action = None;
        let c = self.cursor_col;
        if c >= self.cur_len() {
            if self.lines.len() - self.cursor_line > 1 {
                self.cursor_line = self.cursor_line + 1;
                self.cursor_col = 0;
                self.preferred_visual_col = None;
            }
        } else {
            self.cursor_col = Input::word_right_of(&self.lines[self.cursor_line], c);
            self.preferred_visual_col = None;
        }
        assert(self.model() =~= word_forward(old(self).model()));
        self.undo_stack.check();
    }

    /// One grapheme left, or to the end of the previous line.
    fn move_left_exec(&mut self)
        requires
            old(self).wf(),
        ensures
            final(self).wf(),
            final(self).model() == move_left(old(self).model()),
    {
        self.last_action = None;
        let c = self.cursor_col;
        if c > 0 {
            self.cursor_col = Input::left_of(&self.lines[self.cursor_line], c);
            self.preferred_visual_col = None;
        } else if self.cursor_line > 0 {
            self.cursor_line = self.cursor_line - 1;
            self.cursor_col = self.cur_len();
            self.preferred_visual_col = None;
        }
        assert(self.model() =~= move_left(old(self).model()));
        self.undo_stack.check();
    }

    /// Moves to the next (or previous) occurrence of `ch`.
    fn jump_to_char(&mut self, ch: char, mode: JumpMode)
        requires
            old(self).wf(),
        ensures
            final(self).wf(),
            final(self).model() == jump_to(old(self).model(), ch, mode),
    {
        self.last_action = None;
        let ghost m1 = with_action(old(self).model(), None);
        assert(self.model() =~= m1);
        let ghost spec_found = match mode {
            JumpMode::Forward => jump_scan_forward(m1, ch, m1.line),
            JumpMode::Backward => jump_scan_backward(m1, ch, m1.line),
        };
        let found = match mode {
            JumpMode::Forward => self.scan_forward(ch),
            JumpMode::Backward => self.scan_backward(ch),
        };
        match found {
            Some((l, k)) => {
                assert(spec_found == Some((l as int, k as int)));
                self.cursor_line = l;
                self.cursor_col = k;
                self.preferred_visual_col = None;
                assert(self.model() =~= place(m1, l as int, k as int));
            },
            None => {
                assert(spec_found is None);
            },
        }
        assert(self.model() =~= jump_to(old(self).model(), ch, mode));
        self.undo_stack.check();
    }

    #[verifier::spinoff_prover]
    fn scan_forward(&self, ch: char) -> (r: Option<(usize, usize)>)
        requires
            self.wf(),
        ensures
            match r {
                Some((l, k)) => jump_scan_forward(self.model(), ch, self.model().line) == Some((l as int, k as int))
                    && l < self.model().lines.len() && k < self.model().lines[l as int].len(),
                None => jump_scan_forward(self.model(), ch, self.model().line) is None,
            },
    {
        let mut idx = self.cursor_line;
        let n = self.lines.len();
        while idx < n
            invariant
                self.wf(),
                n == self.model().lines.len(),
                self.model().line <= idx <= n,
                jump_scan_forward(self.model(), ch, self.model().line) == jump_scan_forward(self.model(), ch, idx as int),
            decreases n - idx,
        {
            let l = &self.lines[idx];
            let start = if idx == self.cursor_line {
                if self.cursor_col < l.len() { self.cursor_col + 1 } else { l.len() }
            } else {
                0
            };
            assert(self.model().lines[idx as int] == l@);
            match find_char_exec(l, ch, start) {
                Some(k) => {
                    assert(jump_scan_forward(self.model(), ch, idx as int) == Some((idx as int, k as int)));
                    return Some((idx, k));
                },
                None => {},
            }
            idx += 1;
        }
        None
    }

    fn scan_backward(&self, ch: char) -> (r: Option<(usize, usize)>)
        requires
            self.wf(),
        ensures
            match r {
                Some((l, k)) => jump_scan_backward(self.model(), ch, self.model().line) == Some((l as int, k as int))
                    && l < self.model().lines.len() && k < self.model().lines[l as int].len(),
                None => jump_scan_backward(self.model(), ch, self.model().line) is None,
            },
    {
        let nl = self.lines.len();
        assert(self.cursor_line < nl);
        let mut idx = self.cursor_line + 1;
        while idx > 0
            invariant
                self.wf(),
                idx <= self.model().line + 1,
                jump_scan_backward(self.model(), ch, self.model().line) == jump_scan_backward(self.model(), ch, idx - 1),
            decreases idx,
        {
            let i = idx - 1;
            let l = &self.lines[i];
            let end = if i == self.cursor_line { self.cursor_col } else { l.len() };
            assert(self.model().lines[i as int] == l@);
            match rfind_char_exec(l, ch, end) {
                Some(k) => {
                    assert(jump_scan_backward(self.model(), ch, i as int) == Some((i as int, k as int)));
                    return Some((i, k));
                },
                None => {},
            }
            idx -= 1;
        }
        None
    }

    /// The position in the history while browsing it, or -1.
    pub fn history_index(&self) -> (r: isize)
        ensures
            r == self.model().history_index,
    {
        self.history_index
    }

    /// The first visible layout line.
    pub fn scroll_offset(&self) -> (r: usize)
        ensures
            r == self.model().scroll_offset,
    {
        self.scroll_offset
    }
}


/// Tabs as four spaces.
fn expand_tabs_exec(v: &Vec<char>) -> (r: Vec<char>)
    ensures
        r@ == expand_paste_tabs(v@),
{
    let mut out: Vec<char> = Vec::new();
    let mut i: usize = 0;
    let n = v.len();
    assert(v@.subrange(0, n as int) =~= v@);
    while i < n
        invariant
            n == v@.len(),
            i <= n,
            expand_paste_tabs(v@) == out@ + expand_paste_tabs(v@.subrange(i as int, n as int)),
        decreases n - i,
    {
        let ghost rest = v@.subrange(i as int, n as int);
        assert(rest.drop_first() =~= v@.subrange(i + 1, n as int));
        if v[i] == '\t' {
            extend_chars(&mut out, &[' ', ' ', ' ', ' ']);
        } else {
            out.push(v[i]);
        }
        i += 1;
    }
    assert(out@ + expand_paste_tabs(v@.subrange(n as int, n as int)) =~= out@);
    out
}

/// Keeps line breaks and characters from U+0020 on.
fn filter_paste(v: &Vec<char>) -> (r: Vec<char>)
    ensures
        r@ == v@.filter(|c: char| c == '\n' || c as u32 >= 32),
{
    let mut out: Vec<char> = Vec::new();
    let mut i: usize = 0;
    assert(v@.subrange(0, 0) =~= Seq::<char>::empty());
    while i < v.len()
        invariant
            i <= v@.len(),
            out@ == v@.subrange(0, i as int).filter(|c: char| c == '\n' || c as u32 >= 32),
        decreases v@.len() - i,
    {
        proof {
            let p = v@.subrange(0, i + 1);
            assert(p =~= v@.subrange(0, i as int).push(v@[i as int]));
            v@.subrange(0, i as int).lemma_filter_push(v@[i as int], |c: char| c == '\n' || c as u32 >= 32);
        }
        if v[i] == '\n' || v[i] as u32 >= 32 {
            out.push(v[i]);
        }
        i += 1;
    }
    assert(v@.subrange(0, v@.len() as int) =~= v@);
    out
}

/// Number of line breaks.
fn count_breaks_exec(v: &Vec<char>) -> (r: usize)
    ensures
        r == count_breaks(v@),
{
    let mut n: usize = 0;
    let mut i: usize = 0;
    assert(v@.subrange(0, 0) =~= Seq::<char>::empty());
    while i < v.len()
        invariant
            i <= v@.len(),
            n == count_breaks(v@.subrange(0, i as int)),
            n <= i,
        decreases v@.len() - i,
    {
        assert(v@.subrange(0, i + 1).drop_last() =~= v@.subrange(0, i as int));
        if v[i] == '\n' {
            n += 1;
        }
        i += 1;
    }
    assert(v@.subrange(0, v@.len() as int) =~= v@);
    n
}

/// Length in UTF-16 code units, saturating.
fn utf16_len(v: &Vec<char>) -> (r: usize)
    ensures
        r == sat(utf16_units(v@)),
{
    let mut n: usize = 0;
    let mut i: usize = 0;
    let ghost mut exact: nat = 0;
    assert(v@.subrange(0, 0) =~= Seq::<char>::empty());
    while i < v.len()
        invariant
            i <= v@.len(),
            exact == utf16_units(v@.subrange(0, i as int)),
            n == sat(exact),
        decreases v@.len() - i,
    {
        assert(v@.subrange(0, i + 1).drop_last() =~= v@.subrange(0, i as int));
        let w: usize = if v[i] as u32 >= 0x10000 { 2 } else { 1 };
        proof {
            exact = exact + (w as nat);
        }
        n = if n <= usize::MAX - w { n + w } else { usize::MAX };
        i += 1;
    }
    assert(v@.subrange(0, v@.len() as int) =~= v@);
    n
}

/// Index of the first paste stored under `id`.
fn find_paste_slot(p: &Vec<(u32, String)>, id: u32) -> (r: Option<usize>)
    ensures
        match r {
            Some(i) => paste_slot(pastes_view(p@), id, 0) == Some(i as int) && i < p@.len(),
            None => paste_slot(pastes_view(p@), id, 0) is None,
        },
{
    let mut i: usize = 0;
    while i < p.len()
        invariant
            i <= p@.len(),
            paste_slot(pastes_view(p@), id, 0) == paste_slot(pastes_view(p@), id, i as int),
        decreases p@.len() - i,
    {
        if p[i].0 == id {
            assert(pastes_view(p@)[i as int].0 == id);
            return Some(i);
        }
        i += 1;
    }
    None
}

/// `[paste #ID +N lines]` or `[paste #ID N chars]`.
fn paste_marker_exec(id: u32, lines: usize, chars: usize, by_lines: bool) -> (r: Vec<char>)
    ensures
        r@ == paste_marker(id, lines as nat, chars as nat, by_lines),
{
    let mut out: Vec<char> = Vec::new();
    extend_chars(&mut out, &['[', 'p', 'a', 's', 't', 'e', ' ', '#']);
    let d = decimal_chars(id as usize);
    extend_chars(&mut out, d.as_slice());
    if by_lines {
        extend_chars(&mut out, &[' ', '+']);
        let n = decimal_chars(lines);
        extend_chars(&mut out, n.as_slice());
        extend_chars(&mut out, &[' ', 'l', 'i', 'n', 'e', 's', ']']);
    } else {
        out.push(' ');
        let n = decimal_chars(chars);
        extend_chars(&mut out, n.as_slice());
        extend_chars(&mut out, &[' ', 'c', 'h', 'a', 'r', 's', ']']);
    }
    assert(out@ =~= paste_marker(id, lines as nat, chars as nat, by_lines));
    out
}

impl Editor {
    /// Stores `text` under paste `id`.
    fn store_paste_exec(&mut self, id: u32, text: &Vec<char>)
        ensures
            final(self).model() == (EdModel { pastes: store_paste(old(self).model().pastes, id, text@), ..old(self).model() }),
    {
        let slot = find_paste_slot(&self.pastes, id);
        let ghost before = self.pastes@;
        match slot {
            Some(i) => {
                self.pastes[i] = (id, string_of(text.as_slice()));
                assert(pastes_view(self.pastes@) =~= pastes_view(before).update(i as int, (id, text@)));
            },
            None => {
                self.pastes.push((id, string_of(text.as_slice())));
                assert(pastes_view(self.pastes@) =~= pastes_view(before).push((id, text@)));
            },
        }
        assert(self.model() =~= (EdModel { pastes: store_paste(old(self).model().pastes, id, text@), ..old(self).model() }));
    }

    /// Handles a bracketed paste (see `paste`).
    fn handle_paste(&mut self, pasted: &str)
        requires
            old(self).wf(),
        ensures
            final(self).wf(),
            final(self).model() == paste(old(self).model(), pasted@),
    {
        let ghost m0 = leave_history(old(self).model());
        self.history_index = -1;
        assert(self.model() =~= m0);
        self.last_action = None;
        assert(self.model() =~= with_action(m0, None));
        self.save_undo();
        let ghost m1 = self.model();
        let v = chars_of(pasted);
        let norm = normalize_chars(&v);
        let expanded = expand_tabs_exec(&norm);
        let filtered = filter_paste(&expanded);
        let c = self.cursor_col;
        let f = if filtered.len() > 0 && (filtered[0] == '/' || filtered[0] == '~' || filtered[0] == '.') && c > 0 && {
            let b = self.lines[self.cursor_line][c - 1];
            ('a' <= b && b <= 'z') || ('A' <= b && b <= 'Z') || ('0' <= b && b <= '9') || b == '_'
        } {
            let mut g = vec![' '];
            extend_chars(&mut g, filtered.as_slice());
            g
        } else {
            filtered
        };
        assert(f@ =~= spaced_paste(m1, clean_paste(pasted@)));
        if self.paste_mode == EditorPasteMode::Literal {
            self.insert_text_internal(&f);
            return;
        }
        let breaks = count_breaks_exec(&f);
        let nl = if breaks < usize::MAX { breaks + 1 } else { usize::MAX };
        let nc = utf16_len(&f);
        if nl > 10 || nc > 1000 {
            let id = if self.paste_counter < u32::MAX { self.paste_counter + 1 } else { u32::MAX };
            self.paste_counter = id;
            self.store_paste_exec(id, &f);
            let marker = paste_marker_exec(id, nl, nc, nl > 10);
            self.undo_stack.check();
            self.insert_text_internal(&marker);
        } else if nl == 1 {
            let mut i: usize = 0;
            assert(f@.subrange(0, f@.len() as int) =~= f@);
            while i < f.len()
                invariant
                    self.wf(),
                    i <= f@.len(),
                    type_all(m1, f@) == type_all(self.model(), f@.subrange(i as int, f@.len() as int)),
                decreases f@.len() - i,
            {
                let ghost rest = f@.subrange(i as int, f@.len() as int);
                assert(rest.drop_first() =~= f@.subrange(i + 1, f@.len() as int));
                self.insert_character(f[i], true);
                i += 1;
            }
            assert(f@.subrange(f@.len() as int, f@.len() as int) =~= Seq::<char>::empty());
            assert(f@.subrange(0, f@.len() as int) =~= f@);
        } else {
            self.insert_text_internal(&f);
        }
    }

    /// What a submission hands to `on_submit`: the text trimmed, with every known paste
    /// marker replaced by its content.
    pub fn submission(&self) -> (r: String)
        requires
            self.wf(),
        ensures
            r@ == submitted(self.model()),
    {
        let text = join_chars(&self.lines);
        let trimmed = crate::widgets::select_list::trim_chars(text.as_slice());
        let ts = string_of(trimmed.as_slice());
        let result = replace_paste_markers(ts.as_str(), self.pastes.as_slice());
        assert(result@ == submitted(self.model()));
        result
    }

    /// Submits the text: the editor resets, `on_change` hears the empty text, then `on_submit`
    /// receives `submission()` as it was before the reset.
    fn submit_value(&mut self)
        requires
            old(self).wf(),
        ensures
            final(self).wf(),
            final(self).model() == after_submit(old(self).model()),
            final(self).notices_view() == old(self).notices_view() + submission_notices(
                old(self).handlers_set().0,
                old(self).handlers_set().1,
                submitted(old(self).model()),
            ),
    {
        let result = self.submission();
        self.lines = vec![Vec::new()];
        self.cursor_line = 0;
        self.cursor_col = 0;
        self.pastes = Vec::new();
        self.paste_counter = 0;
        self.history_index = -1;
        self.scroll_offset = 0;
        self.undo_stack.clear();
        self.last_action = None;
        assert(self.model() =~= after_submit(old(self).model()));
        assert(join_lines(self.model().lines) =~= Seq::<char>::empty()) by {
            assert(self.model().lines =~= seq![Seq::<char>::empty()]);
        }
        self.emit_change();
        let ghost v = result@;
        if fire_value(&mut self.on_submit, result) {
            self.notices = Ghost(self.notices@.push(EditorNotice::Submitted(v)));
        }
    }
}


pub open spec fn rows_view(v: Seq<(usize, usize, usize)>) -> Seq<(int, int, int)> {
    v.map_values(|t: (usize, usize, usize)| (t.0 as int, t.1 as int, t.2 as int))
}


/// The rows of line `l` (number `idx`) at `width` cells.
fn line_rows(l: &Vec<char>, idx: usize, width: usize) -> (r: Vec<(usize, usize, usize)>)
    ensures
        rows_view(r@) == line_visuals(l@, idx as int, width as nat),
{
    if l.len() == 0 {
        let r = vec![(idx, 0usize, 0usize)];
        assert(rows_view(r@) =~= line_visuals(l@, idx as int, width as nat));
        return r;
    }
    let s = string_of(l.as_slice());
    let w = visible_width(s.as_str());
    if w <= width {
        let b = utf8_length(l.as_slice());
        let r = vec![(idx, 0usize, b)];
        assert(rows_view(r@) =~= line_visuals(l@, idx as int, width as nat));
        return r;
    }
    let chunks = word_wrap_line(s.as_str(), width);
    let ghost cv = chunks@.map_values(|c: TextChunk| chunk_view(c));
    let mut out: Vec<(usize, usize, usize)> = Vec::new();
    let mut i: usize = 0;
    while i < chunks.len()
        invariant
            i <= chunks@.len(),
            cv == chunks@.map_values(|c: TextChunk| chunk_view(c)),
            cv == word_wrap(l@, width as nat),
            l@.len() > 0,
            sat(text_width(l@)) > width,
            rows_view(out@) == line_visuals(l@, idx as int, width as nat).subrange(0, i as int),
        decreases chunks@.len() - i,
    {
        let a = chunks[i].start_index;
        let e = chunks[i].end_index;
        let len = if e >= a { e - a } else { 0 };
        let ghost before = out@;
        out.push((idx, a, len));
        assert(cv[i as int] == chunk_view(chunks@[i as int]));
        assert(rows_view(out@) =~= rows_view(before).push((idx as int, a as int, len as int)));
        assert(line_visuals(l@, idx as int, width as nat).subrange(0, i + 1) =~= line_visuals(l@, idx as int, width as nat).subrange(0, i as int).push((idx as int, a as int, len as int)));
        i += 1;
    }
    assert(line_visuals(l@, idx as int, width as nat).subrange(0, chunks@.len() as int) =~= line_visuals(l@, idx as int, width as nat));
    out
}

fn append_rows(out: &mut Vec<(usize, usize, usize)>, src: &Vec<(usize, usize, usize)>)
    ensures
        rows_view(final(out)@) == rows_view(old(out)@) + rows_view(src@),
{
    let mut k: usize = 0;
    while k < src.len()
        invariant
            k <= src@.len(),
            rows_view(out@) == rows_view(old(out)@) + rows_view(src@).subrange(0, k as int),
        decreases src@.len() - k,
    {
        let ghost before = out@;
        out.push(src[k]);
        assert(rows_view(out@) =~= rows_view(before).push(rows_view(src@)[k as int]));
        assert(rows_view(src@).subrange(0, k + 1) =~= rows_view(src@).subrange(0, k as int).push(rows_view(src@)[k as int]));
        k += 1;
    }
    assert(rows_view(src@).subrange(0, src@.len() as int) =~= rows_view(src@));
}

/// The row `delta` rows away from row `ci` among `n` rows, kept at the first or last row.
fn target_row(ci: usize, n: usize, delta: isize) -> (r: usize)
    requires
        delta != 0,
    ensures
        r == (if delta < 0 {
            sat_sub(ci as int, -delta)
        } else {
            let up = sat((ci + delta) as nat) as int;
            let lastr = sat_sub(n as int, 1);
            if lastr <= up { lastr } else { up }
        }),
{
    if delta < 0 {
        let d: usize = if delta == isize::MIN { (isize::MAX as usize) + 1 } else { (-delta) as usize };
        if ci >= d { ci - d } else { 0 }
    } else {
        let d = delta as usize;
        let up = if ci <= usize::MAX - d { ci + d } else { usize::MAX };
        let lastr = if n >= 1 { n - 1 } else { 0 };
        if lastr <= up { lastr } else { up }
    }
}

/// The row of `vls` holding byte `cb` of line `line`.
fn find_row(vls: &Vec<(usize, usize, usize)>, line: usize, cb: usize) -> (r: usize)
    ensures
        r == find_row_from(rows_view(vls@), line as int, cb as int, 0),
{
    let ghost rv = rows_view(vls@);
    let n = vls.len();
    let mut i: usize = 0;
    while i < n
        invariant
            n == vls@.len(),
            rv == rows_view(vls@),
            i <= n,
            find_row_from(rv, line as int, cb as int, 0) == find_row_from(rv, line as int, cb as int, i as int),
        decreases n - i,
    {
        let (l, st, len) = vls[i];
        assert(rv[i as int] == (l as int, st as int, len as int));
        if l == line {
            let cis = if cb >= st { cb - st } else { 0 };
            let is_last = i + 1 == n || vls[i + 1].0 != l;
            proof {
                if i + 1 < n {
                    assert(rv[i + 1] == (vls@[i + 1].0 as int, vls@[i + 1].1 as int, vls@[i + 1].2 as int));
                }
            }
            if cis < len || (is_last && cis <= len) {
                return i;
            }
        }
        i += 1;
    }
    if n > 0 { n - 1 } else { 0 }
}

/// The character index of byte offset `b`, moved back to the start of its character.
fn floor_char_exec(l: &Vec<char>, b: usize) -> (r: usize)
    ensures
        r == floor_char(l@, b as int),
        r <= l@.len(),
{
    let mut k: usize = 0;
    let mut acc: usize = 0;
    proof {
        lemma_snap_bounds(l@, 0, b as int);
        assert(l@.subrange(0, 0) =~= Seq::<char>::empty());
    }
    while k < l.len()
        invariant
            k <= l@.len(),
            acc as int == byte_col(l@, k as int),
            acc <= b,
            snap(l@, b as int) == snap_from(l@, k as int, b as int),
        decreases l@.len() - k,
    {
        let w = char_utf8_len(l[k]);
        assert(l@.subrange(0, k + 1).drop_last() =~= l@.subrange(0, k as int));
        if b - acc < w {
            return k;
        }
        acc = acc + w;
        k += 1;
    }
    k
}

impl Editor {
    /// The rows of the text at the width of the last rendering.
    fn rows(&self) -> (r: Vec<(usize, usize, usize)>)
        ensures
            rows_view(r@) == rows_of(self.model()),
    {
        let mut out: Vec<(usize, usize, usize)> = Vec::new();
        let w = self.last_width;
        let mut i: usize = 0;
        assert(lines_view(self.lines@).subrange(0, 0) =~= Seq::<Seq<char>>::empty());
        while i < self.lines.len()
            invariant
                i <= self.lines@.len(),
                w == self.last_width,
                rows_view(out@) == visual_lines(lines_view(self.lines@).subrange(0, i as int), w as nat),
            decreases self.lines@.len() - i,
        {
            let lr = line_rows(&self.lines[i], i, w);
            let ghost before = out@;
            append_rows(&mut out, &lr);
            proof {
                let pre = lines_view(self.lines@).subrange(0, i + 1);
                assert(pre.drop_last() =~= lines_view(self.lines@).subrange(0, i as int));
                assert(pre.last() == self.lines@[i as int]@);
            }
            i += 1;
        }
        assert(lines_view(self.lines@).subrange(0, self.lines@.len() as int) =~= lines_view(self.lines@));
        out
    }

    /// Byte offset of the cursor in its line.
    fn cursor_byte_exec(&self) -> (r: usize)
        requires
            self.wf(),
        ensures
            r == cursor_byte(self.model()),
    {
        let prefix = self.cur_slice(0, self.cursor_col);
        utf8_length(prefix.as_slice())
    }

    /// Moves the cursor from row `ci` to row `ti` (see `move_to_row`).
    fn move_to_row_exec(&mut self, vls: &Vec<(usize, usize, usize)>, ci: usize, ti: usize)
        requires
            old(self).wf(),
            rows_view(vls@) == rows_of(old(self).model()),
        ensures
            final(self).wf(),
            final(self).model() == move_to_row(old(self).model(), rows_view(vls@), ci as int, ti as int),
    {
        let n = vls.len();
        if ci >= n || ti >= n {
            return;
        }
        let ghost m = self.model();
        let ghost rv = rows_view(vls@);
        proof {
            lemma_rows_in_range(m.lines, m.last_width as nat);
        }
        let (_cl, cst, clen) = vls[ci];
        let (tl, tst, tlen) = vls[ti];
        assert(rv[ci as int] == (_cl as int, cst as int, clen as int));
        assert(rv[ti as int] == (tl as int, tst as int, tlen as int));
        let cb = self.cursor_byte_exec();
        let cvc = if cb >= cst { cb - cst } else { 0 };
        let last_src = ci + 1 >= n || vls[ci + 1].0 != _cl;
        let last_tgt = ti + 1 >= n || vls[ti + 1].0 != tl;
        proof {
            if ci + 1 < n {
                assert(rv[ci + 1] == (vls@[ci + 1].0 as int, vls@[ci + 1].1 as int, vls@[ci + 1].2 as int));
            }
            if ti + 1 < n {
                assert(rv[ti + 1] == (vls@[ti + 1].0 as int, vls@[ti + 1].1 as int, vls@[ti + 1].2 as int));
            }
        }
        let smax = if last_src { clen } else if clen >= 1 { clen - 1 } else { 0 };
        let tmax = if last_tgt { tlen } else if tlen >= 1 { tlen - 1 } else { 0 };
        let (mc, pref) = match self.preferred_visual_col {
            None => if tmax < cvc { (tmax, Some(cvc)) } else { (cvc, None) },
            Some(p) => if cvc < smax {
                if tmax < cvc { (tmax, Some(cvc)) } else { (cvc, None) }
            } else if tmax < cvc || tmax < p {
                (tmax, Some(p))
            } else {
                (p, None)
            },
        };
        let target = if tst <= usize::MAX - mc { tst + mc } else { usize::MAX };
        let ll = utf8_length(self.lines[tl].as_slice());
        let b = if target <= ll { target } else { ll };
        let col = floor_char_exec(&self.lines[tl], b);
        self.cursor_line = tl;
        self.cursor_col = col;
        self.preferred_visual_col = pref;
        assert(self.model() =~= move_to_row(m, rv, ci as int, ti as int));
        self.undo_stack.check();
    }

    /// One grapheme right, or to the next line; at the very end the column is remembered.
    fn move_right_exec(&mut self, vls: &Vec<(usize, usize, usize)>, ci: usize)
        requires
            old(self).wf(),
        ensures
            final(self).wf(),
            final(self).model() == move_right_at(old(self).model(), rows_view(vls@), ci as int),
    {
        let len = self.cur_len();
        let c = self.cursor_col;
        if c < len {
            self.cursor_col = Input::right_of(&self.lines[self.cursor_line], c);
            self.preferred_visual_col = None;
        } else if self.lines.len() - self.cursor_line > 1 {
            self.cursor_line = self.cursor_line + 1;
            self.cursor_col = 0;
            self.preferred_visual_col = None;
        } else if ci < vls.len() {
            let b = self.cursor_byte_exec();
            let st = vls[ci].1;
            assert(rows_view(vls@)[ci as int].1 == st as int);
            self.preferred_visual_col = Some(if b >= st { b - st } else { 0 });
        }
        assert(self.model() =~= move_right_at(old(self).model(), rows_view(vls@), ci as int));
        self.undo_stack.check();
    }

    /// Moves `delta_line` rows (negative: up) and then one grapheme in the direction of
    /// `delta_col` (see `move_cursor_by`).
    pub fn move_cursor(&mut self, delta_line: isize, delta_col: isize)
        requires
            old(self).wf(),
        ensures
            final(self).wf(),
            final(self).model() == move_cursor_by(old(self).model(), delta_line as int, delta_col as int),
    {
        self.last_action = None;
        let ghost m1 = with_action(old(self).model(), None);
        assert(self.model() =~= m1);
        let vls = self.rows();
        let cb = self.cursor_byte_exec();
        let ci = find_row(&vls, self.cursor_line, cb);
        let n = vls.len();
        if delta_line != 0 {
            let ti = target_row(ci, n, delta_line);
            if ti < n {
                self.move_to_row_exec(&vls, ci, ti);
            }
        }
        if delta_col > 0 {
            self.move_right_exec(&vls, ci);
        } else if delta_col < 0 {
            self.move_left_exec();
        }
    }

    /// Moves a page up (`direction` < 0) or down (see `page_scroll`).
    fn page_scroll_exec(&mut self, direction: isize)
        requires
            old(self).wf(),
        ensures
            final(self).wf(),
            final(self).model() == page_scroll(old(self).model(), direction as int),
    {
        self.last_action = None;
        let ghost m1 = with_action(old(self).model(), None);
        assert(self.model() =~= m1);
        let rows3: usize = if self.terminal_rows <= usize::MAX / 3 { self.terminal_rows * 3 } else { usize::MAX };
        let p = rows3 / 10;
        let page = if p < 5 { 5 } else { p };
        let vls = self.rows();
        let cb = self.cursor_byte_exec();
        let ci = find_row(&vls, self.cursor_line, cb);
        let n = vls.len();
        let ti = if direction < 0 {
            if ci >= page { ci - page } else { 0 }
        } else {
            let up = if ci <= usize::MAX - page { ci + page } else { usize::MAX };
            let lastr = if n >= 1 { n - 1 } else { 0 };
            if lastr <= up { lastr } else { up }
        };
        self.move_to_row_exec(&vls, ci, ti);
    }

    /// The cursor row and the number of rows.
    fn cursor_row_exec(&self) -> (r: (usize, usize))
        requires
            self.wf(),
        ensures
            r.0 == cursor_row(self.model()),
            r.1 == rows_of(self.model()).len(),
    {
        let vls = self.rows();
        let cb = self.cursor_byte_exec();
        (find_row(&vls, self.cursor_line, cb), vls.len())
    }
}


/// A laid-out row: its text and the cursor's byte offset in it.
struct LayoutLine {
    text: Vec<char>,
    cursor: Option<usize>,
}

spec fn opt_int(o: Option<usize>) -> Option<int> {
    match o {
        Some(c) => Some(c as int),
        None => None,
    }
}

spec fn row_view(l: LayoutLine) -> LayoutRow {
    LayoutRow { text: l.text@, cursor: opt_int(l.cursor) }
}

spec fn layout_view(v: Seq<LayoutLine>) -> Seq<LayoutRow> {
    v.map_values(|l: LayoutLine| row_view(l))
}

fn push_row(out: &mut Vec<LayoutLine>, l: LayoutLine)
    ensures
        layout_view(final(out)@) == layout_view(old(out)@).push(row_view(l)),
        final(out)@.len() == old(out)@.len() + 1,
{
    out.push(l);
    assert(layout_view(out@) =~= layout_view(old(out)@).push(row_view(l)));
}

/// The rows of one line (see `line_layout`).
fn line_layout_exec(l: &Vec<char>, is_current: bool, cb: usize, width: usize) -> (r: Vec<LayoutLine>)
    ensures
        layout_view(r@) == line_layout(l@, is_current, cb as int, width as nat),
{
    let s = string_of(l.as_slice());
    let w = visible_width(s.as_str());
    let mut out: Vec<LayoutLine> = Vec::new();
    if w <= width {
        push_row(&mut out, LayoutLine { text: copy_chars(l), cursor: if is_current { Some(cb) } else { None } });
        assert(layout_view(out@) =~= line_layout(l@, is_current, cb as int, width as nat));
        return out;
    }
    let chunks = word_wrap_line(s.as_str(), width);
    let ghost cv = chunks@.map_values(|c: TextChunk| chunk_view(c));
    let ghost expected = chunk_rows(word_wrap(l@, width as nat), is_current, cb as int);
    let n = chunks.len();
    let mut k: usize = 0;
    while k < n
        invariant
            n == chunks@.len(),
            k <= n,
            cv == chunks@.map_values(|c: TextChunk| chunk_view(c)),
            cv == word_wrap(l@, width as nat),
            expected == chunk_rows(word_wrap(l@, width as nat), is_current, cb as int),
            layout_view(out@) == expected.subrange(0, k as int),
        decreases n - k,
    {
        let st = chunks[k].start_index;
        let e = chunks[k].end_index;
        let text = chars_of(chunks[k].text.as_str());
        assert(cv[k as int] == chunk_view(chunks@[k as int]));
        let cursor = if !is_current {
            None
        } else if k + 1 == n {
            if cb >= st { Some(cb - st) } else { None }
        } else if cb >= st && cb < e {
            let adj = cb - st;
            let tl = utf8_length(text.as_slice());
            Some(if adj > tl { tl } else { adj })
        } else {
            None
        };
        let row = LayoutLine { text, cursor };
        assert(row_view(row) == expected[k as int]);
        let ghost before = out@;
        push_row(&mut out, row);
        assert(expected.subrange(0, k + 1) =~= expected.subrange(0, k as int).push(expected[k as int]));
        k += 1;
    }
    assert(expected.subrange(0, n as int) =~= expected);
    out
}

fn append_layout(out: &mut Vec<LayoutLine>, src: Vec<LayoutLine>)
    ensures
        layout_view(final(out)@) == layout_view(old(out)@) + layout_view(src@),
{
    let mut src = src;
    let ghost sv = layout_view(src@);
    let mut rev: Vec<LayoutLine> = Vec::new();
    while src.len() > 0
        invariant
            layout_view(src@) + layout_view(rev@).reverse() == sv,
        decreases src@.len(),
    {
        let ghost s0 = src@;
        let ghost r0 = rev@;
        let x = src.pop().unwrap();
        rev.push(x);
        assert(layout_view(s0) =~= layout_view(src@).push(row_view(x)));
        assert(layout_view(rev@) =~= layout_view(r0).push(row_view(x)));
        assert(layout_view(rev@).reverse() =~= seq![row_view(x)] + layout_view(r0).reverse());
    }
    assert(layout_view(src@) =~= Seq::<LayoutRow>::empty());
    while rev.len() > 0
        invariant
            layout_view(out@) + layout_view(rev@).reverse() == layout_view(old(out)@) + sv,
        decreases rev@.len(),
    {
        let ghost o0 = out@;
        let ghost r0 = rev@;
        let x = rev.pop().unwrap();
        push_row(out, x);
        assert(layout_view(r0) =~= layout_view(rev@).push(row_view(x)));
        assert(layout_view(r0).reverse() =~= seq![row_view(x)] + layout_view(rev@).reverse());
    }
    assert(layout_view(rev@).reverse() =~= Seq::<LayoutRow>::empty());
}

/// The text from the cursor on, its first grapheme in reverse video (see `cursor_shown`).
fn cursor_shown_exec(after: &Vec<char>) -> (r: Vec<char>)
    ensures
        r@ == cursor_shown(after@),
{
    let a_str = string_of(after.as_slice());
    let g = grapheme_segments(a_str.as_str());
    let first = if g.len() > 0 { chars_of(g[0].as_str()) } else { Vec::new() };
    proof {
        if g@.len() > 0 {
            assert(g@.map_values(|x: String| x@)[0] == g@[0]@);
        }
    }
    let fl = if first.len() <= after.len() { first.len() } else { after.len() };
    let mut out: Vec<char> = vec!['\x1b', '[', '7', 'm'];
    extend_chars(&mut out, first.as_slice());
    extend_chars(&mut out, &['\x1b', '[', '0', 'm']);
    let rest = slice_chars(after.as_slice(), fl, after.len());
    extend_chars(&mut out, rest.as_slice());
    assert(out@ =~= cursor_shown(after@));
    out
}

/// `a` spaces, then `v`, then `b` spaces.
fn padded(a: usize, v: &Vec<char>, b: usize) -> (r: Vec<char>)
    ensures
        r@ == spaces(a as nat) + v@ + spaces(b as nat),
{
    let mut out = repeat_char(' ', a);
    extend_chars(&mut out, v.as_slice());
    let right = repeat_char(' ', b);
    extend_chars(&mut out, right.as_slice());
    out
}

fn row_plain_exec(d: &Vec<char>, cw: usize, padding: usize) -> (r: Vec<char>)
    ensures
        r@ == row_plain(d@, cw as int, padding as int),
{
    let lw = visible_width(string_of(d.as_slice()).as_str());
    let mut body = copy_chars(d);
    let fill = repeat_char(' ', if cw >= lw { cw - lw } else { 0 });
    extend_chars(&mut body, fill.as_slice());
    let out = padded(padding, &body, padding);
    assert(out@ =~= row_plain(d@, cw as int, padding as int));
    out
}

fn row_cursor_inside_exec(d: &Vec<char>, k: usize, cw: usize, padding: usize) -> (r: Vec<char>)
    requires
        k < d@.len(),
    ensures
        r@ == row_cursor_inside(d@, k as int, cw as int, padding as int),
{
    let lw = visible_width(string_of(d.as_slice()).as_str());
    let mut body = slice_chars(d.as_slice(), 0, k);
    let after = slice_chars(d.as_slice(), k, d.len());
    let shown = cursor_shown_exec(&after);
    extend_chars(&mut body, shown.as_slice());
    let fill = repeat_char(' ', if cw >= lw { cw - lw } else { 0 });
    extend_chars(&mut body, fill.as_slice());
    let out = padded(padding, &body, padding);
    assert(out@ =~= row_cursor_inside(d@, k as int, cw as int, padding as int));
    out
}

fn row_cursor_end_exec(d: &Vec<char>, cw: usize, padding: usize) -> (r: Vec<char>)
    ensures
        r@ == row_cursor_end(d@, cw as int, padding as int),
{
    let lw = visible_width(string_of(d.as_slice()).as_str());
    let mut body = copy_chars(d);
    extend_chars(&mut body, &['\x1b', '[', '7', 'm', ' ', '\x1b', '[', '0', 'm']);
    let lw1 = if lw < usize::MAX { lw + 1 } else { usize::MAX };
    let pushes = lw1 > cw && padding > 0;
    let fill = repeat_char(' ', if cw >= lw1 { cw - lw1 } else { 0 });
    extend_chars(&mut body, fill.as_slice());
    let out = padded(padding, &body, if pushes { padding - 1 } else { padding });
    assert(out@ =~= row_cursor_end(d@, cw as int, padding as int));
    out
}

/// A shown row (see `render_row`).
fn render_row_exec(row: &LayoutLine, cw: usize, padding: usize) -> (r: Vec<char>)
    ensures
        r@ == render_row(row_view(*row), cw as int, padding as int),
{
    let d = &row.text;
    match row.cursor {
        None => row_plain_exec(d, cw, padding),
        Some(cp) => {
            let bl = utf8_length(d.as_slice());
            let k = floor_char_exec(d, if cp <= bl { cp } else { bl });
            if k < d.len() {
                row_cursor_inside_exec(d, k, cw, padding)
            } else {
                row_cursor_end_exec(d, cw, padding)
            }
        },
    }
}

/// Where the hardware cursor goes for a row (see `row_cursor_pos`).
fn row_cursor_exec(row: &LayoutLine, vi: usize, padding: usize) -> (r: Option<CursorPos>)
    requires
        vi < usize::MAX,
    ensures
        r == row_cursor_pos(row_view(*row), vi as int, padding as int),
{
    match row.cursor {
        None => None,
        Some(cp) => {
            let d = &row.text;
            let bl = utf8_length(d.as_slice());
            let k = floor_char_exec(d, if cp <= bl { cp } else { bl });
            let before = slice_chars(d.as_slice(), 0, k);
            let bw = visible_width(string_of(before.as_slice()).as_str());
            let col = if padding <= usize::MAX - bw { padding + bw } else { usize::MAX };
            Some(CursorPos { row: 1 + vi, col })
        },
    }
}

/// `s` repeated `n` times.
pub open spec fn repeated(s: Seq<char>, n: nat) -> Seq<char>
    decreases n,
{
    if n == 0 {
        Seq::empty()
    } else {
        repeated(s, (n - 1) as nat) + s
    }
}

/// The border line that notes `n` rows out of view in the direction of `arrow`: three rules,
/// the arrow, the count and "more", filled with rules up to `width` cells.
pub open spec fn scroll_note(arrow: char, n: nat, width: nat) -> Seq<char> {
    let ind = seq!['─', '─', '─', ' ', arrow, ' '] + decimal(n) + seq![' ', 'm', 'o', 'r', 'e', ' '];
    let iw = sat(text_width(ind)) as nat;
    ind + Seq::new(if width >= iw { (width - iw) as nat } else { 0nat }, |_i: int| '─')
}

/// How many laid-out rows lie below the shown ones.
pub open spec fn rows_below(total: nat, offset: int, shown: nat) -> nat {
    if total >= offset + shown { (total - offset - shown) as nat } else { 0nat }
}

/// `s` repeated `n` times.
fn repeat_text(s: &Vec<char>, n: usize) -> (r: Vec<char>)
    ensures
        r@ == repeated(s@, n as nat),
{
    let mut out: Vec<char> = Vec::new();
    let mut i: usize = 0;
    while i < n
        invariant
            i <= n,
            out@ == repeated(s@, i as nat),
        decreases n - i,
    {
        extend_chars(&mut out, s.as_slice());
        i += 1;
    }
    out
}

impl Editor {
    /// The laid-out text (see `layout`).
    fn layout_exec(&self, width: usize) -> (r: Vec<LayoutLine>)
        requires
            self.wf(),
        ensures
            layout_view(r@) == layout(self.model(), width as nat),
    {
        let mut out: Vec<LayoutLine> = Vec::new();
        if self.lines.len() == 0 || (self.lines.len() == 1 && self.lines[0].len() == 0) {
            push_row(&mut out, LayoutLine { text: Vec::new(), cursor: Some(0) });
            assert(layout_view(out@) =~= layout(self.model(), width as nat));
            return out;
        }
        let cb = self.cursor_byte_exec();
        let ghost m = self.model();
        let mut i: usize = 0;
        assert(layout_view(out@) =~= layout_prefix(m, width as nat, 0));
        while i < self.lines.len()
            invariant
                m == self.model(),
                cb == cursor_byte(m),
                i <= self.lines@.len(),
                layout_view(out@) == layout_prefix(m, width as nat, i as int),
            decreases self.lines@.len() - i,
        {
            let rows = line_layout_exec(&self.lines[i], i == self.cursor_line, cb, width);
            append_layout(&mut out, rows);
            i += 1;
        }
        out
    }

    /// Padding, content width and wrapping width at `width`.
    fn render_widths(&self, width: usize) -> (r: (usize, usize, usize))
        ensures
            r.0 == render_padding(self.model(), width as int),
            r.1 == render_content_width(self.model(), width as int),
            r.2 == render_layout_width(self.model(), width as int),
    {
        let max_padding = (if width >= 1 { width - 1 } else { 0 }) / 2;
        let padding = if self.padding_x <= max_padding { self.padding_x } else { max_padding };
        let cw0 = if width >= padding * 2 { width - padding * 2 } else { 0 };
        let cw = if cw0 < 1 { 1 } else { cw0 };
        let cut: usize = if padding > 0 { 0 } else { 1 };
        let lw0 = if cw >= cut { cw - cut } else { 0 };
        let lw = if lw0 < 1 { 1 } else { lw0 };
        (padding, cw, lw)
    }

    /// Rows shown and whether exactly that many are drawn (see `shown_rows`).
    fn shown_rows_exec(&self) -> (r: (usize, bool))
        ensures
            r.0 as int == shown_rows(self.model()).0,
            r.1 == shown_rows(self.model()).1,
    {
        let rows3: usize = if self.terminal_rows <= usize::MAX / 3 { self.terminal_rows * 3 } else { usize::MAX };
        let p = rows3 / 10;
        let default_rows = if p < 5 { 5 } else { p };
        match self.height_mode {
            EditorHeightMode::Default => (default_rows, false),
            EditorHeightMode::FillAvailable => if self.terminal_rows == 0 {
                (default_rows, false)
            } else {
                (if self.terminal_rows >= 2 { self.terminal_rows - 2 } else { 0 }, true)
            },
        }
    }

    /// The laid-out rows, the scroll offset and the shown rows (see `render_rows_shown`).
    fn render_plan(&self, width: usize) -> (r: (Vec<LayoutLine>, usize, Vec<LayoutLine>))
        requires
            self.wf(),
        ensures
            ({
                let (lay, so, shown) = render_rows_shown(self.model(), width as int);
                &&& layout_view(r.0@) == lay
                &&& r.1 as int == so
                &&& layout_view(r.2@) == shown
            }),
    {
        let ghost m = self.model();
        let (_padding, _cw, lw) = self.render_widths(width);
        let lay = self.layout_exec(lw);
        let (mv, fill) = self.shown_rows_exec();
        let total = lay.len();
        let mut ci: usize = 0;
        let ghost lv = layout_view(lay@);
        while ci < total && lay[ci].cursor.is_none()
            invariant
                total == lay@.len(),
                lv == layout_view(lay@),
                ci <= total,
                first_cursor_row(lv, 0) == first_cursor_row(lv, ci as int),
            decreases total - ci,
        {
            assert(lv[ci as int] == row_view(lay@[ci as int]));
            ci += 1;
        }
        proof {
            if ci < total {
                assert(lv[ci as int] == row_view(lay@[ci as int]));
            }
        }
        let ci = if ci < total { ci } else { 0 };
        let so0 = self.scroll_offset;
        let s1 = if ci < so0 {
            ci
        } else if ci - so0 >= mv {
            ci - (if mv >= 1 { mv - 1 } else { 0 })
        } else {
            so0
        };
        let ms = if total >= mv { total - mv } else { 0 };
        let so = if s1 > ms { ms } else { s1 };
        let end = if so <= total && total - so >= mv { so + mv } else { total };
        let mut shown: Vec<LayoutLine> = Vec::new();
        let mut j = so;
        while j < end
            invariant
                so <= j <= end <= total,
                total == lay@.len(),
                layout_view(shown@) == layout_view(lay@).subrange(so as int, j as int),
            decreases end - j,
        {
            let row = LayoutLine { text: copy_chars(&lay[j].text), cursor: lay[j].cursor };
            push_row(&mut shown, row);
            assert(layout_view(lay@).subrange(so as int, j + 1) =~= layout_view(lay@).subrange(so as int, j as int).push(row_view(lay@[j as int])));
            j += 1;
        }
        let ghost vis = layout_view(shown@);
        if fill && shown.len() < mv {
            let base = shown.len();
            while shown.len() < mv
                invariant
                    base <= shown@.len() <= mv,
                    base == vis.len(),
                    layout_view(shown@) == vis + Seq::new((shown@.len() - base) as nat, |_i: int| LayoutRow { text: Seq::empty(), cursor: None }),
                decreases mv - shown@.len(),
            {
                let ghost before = layout_view(shown@);
                push_row(&mut shown, LayoutLine { text: Vec::new(), cursor: None });
                assert(layout_view(shown@) =~= vis + Seq::new((shown@.len() - base) as nat, |_i: int| LayoutRow { text: Seq::empty(), cursor: None }));
            }
        }
        (lay, so, shown)
    }

    /// The top border: the scroll note in the border style when `so` rows are scrolled out of
    /// view above, else the styled rule repeated across the width.
    fn top_border(&self, so: usize, width: usize) -> (r: String)
        ensures
            so > 0 ==> r@ == self.border_color.styled(scroll_note('↑', so as nat, width as nat)),
            so == 0 ==> r@ == repeated(self.border_color.styled("─"@), width as nat),
    {
        self.border_text('↑', so, width)
    }

    /// The bottom border: the scroll note in the border style when `below` rows lie below the
    /// view, else the styled rule repeated across the width.
    fn bottom_border(&self, below: usize, width: usize) -> (r: String)
        ensures
            below > 0 ==> r@ == self.border_color.styled(scroll_note('↓', below as nat, width as nat)),
            below == 0 ==> r@ == repeated(self.border_color.styled("─"@), width as nat),
    {
        self.border_text('↓', below, width)
    }

    fn border_text(&self, arrow: char, n: usize, width: usize) -> (r: String)
        ensures
            n > 0 ==> r@ == self.border_color.styled(scroll_note(arrow, n as nat, width as nat)),
            n == 0 ==> r@ == repeated(self.border_color.styled("─"@), width as nat),
    {
        if n > 0 {
            let mut ind: Vec<char> = vec!['─', '─', '─', ' ', arrow, ' '];
            let d = decimal_chars(n);
            extend_chars(&mut ind, d.as_slice());
            extend_chars(&mut ind, &[' ', 'm', 'o', 'r', 'e', ' ']);
            let ghost ind_v = ind@;
            assert(ind_v =~= seq!['─', '─', '─', ' ', arrow, ' '] + decimal(n as nat) + seq![' ', 'm', 'o', 'r', 'e', ' ']);
            let iw = visible_width(string_of(ind.as_slice()).as_str());
            let fillc = repeat_char('─', if width >= iw { width - iw } else { 0 });
            extend_chars(&mut ind, fillc.as_slice());
            assert(ind@ =~= scroll_note(arrow, n as nat, width as nat));
            self.border_color.style(string_of(ind.as_slice()).as_str())
        } else {
            let h = chars_of(self.border_color.style("─").as_str());
            string_of(repeat_text(&h, width).as_slice())
        }
    }

    /// Renders at `width` (see `after_render` and `render_row`).
    fn render_exec(&mut self, width: usize) -> (r: Vec<String>)
        ensures
            final(self).wf(),
            final(self).model() == after_render(old(self).model(), width as int),
            ({
                let m = clamp(old(self).model());
                let (lay, so, shown) = render_rows_shown(m, width as int);
                &&& r@.len() == 1 + shown.len() + (if has_bottom_border(old(self).model()) { 1int } else { 0 })
                &&& forall|i: int| 0 <= i < shown.len() ==> (#[trigger] r@[1 + i])@ == render_row(
                    shown[i],
                    render_content_width(m, width as int),
                    render_padding(m, width as int),
                )
                &&& so > 0 ==> r@[0]@ == old(self).border_styled(scroll_note('↑', so as nat, width as nat))
                &&& so == 0 ==> r@[0]@ == repeated(old(self).border_styled("─"@), width as nat)
                &&& has_bottom_border(old(self).model()) ==> {
                    let below = rows_below(lay.len(), so, shown.len());
                    &&& below > 0 ==> r@[r@.len() - 1]@ == old(self).border_styled(scroll_note('↓', below, width as nat))
                    &&& below == 0 ==> r@[r@.len() - 1]@ == repeated(old(self).border_styled("─"@), width as nat)
                }
            }),
    {
        self.clamp_cursor();
        let ghost m = self.model();
        let (padding, cw, lw) = self.render_widths(width);
        let (lay, so, shown) = self.render_plan(width);
        let ghost sv = layout_view(shown@);
        self.last_cursor_pos = None;
        self.last_width = lw;
        self.scroll_offset = so;
        let mut result: Vec<String> = Vec::new();
        let ghost bc = self.border_color;
        let top = self.top_border(so, width);
        let ghost top_v = top@;
        result.push(top);
        let mut vi: usize = 0;
        let n = shown.len();
        assert(shown_cursor(sv, padding as int, 0) is None);
        while vi < n
            invariant
                n == shown@.len(),
                sv == layout_view(shown@),
                vi <= n,
                result@.len() == 1 + vi,
                result@[0]@ == top_v,
                self.border_color == bc,
                forall|i: int| 0 <= i < vi ==> (#[trigger] result@[1 + i])@ == render_row(sv[i], cw as int, padding as int),
                self.model() == (EdModel {
                    last_width: lw as int,
                    scroll_offset: so as int,
                    last_cursor: if m.focused { shown_cursor(sv, padding as int, vi as int) } else { None },
                    ..m
                }),
                self.undo_stack.states() == m.undo,
                m.focused == self.focused,
            decreases n - vi,
        {
            assert(sv[vi as int] == row_view(shown@[vi as int]));
            let line = render_row_exec(&shown[vi], cw, padding);
            let ghost before = result@;
            result.push(string_of(line.as_slice()));
            assert forall|i: int| 0 <= i < vi + 1 implies (#[trigger] result@[1 + i])@ == render_row(sv[i], cw as int, padding as int) by {
                if i < vi {
                    assert(result@[1 + i] == before[1 + i]);
                }
            }
            if self.focused {
                match row_cursor_exec(&shown[vi], vi, padding) {
                    Some(pos) => {
                        self.last_cursor_pos = Some(pos);
                    },
                    None => {},
                }
            }
            vi += 1;
        }
        let (_mv, fill) = self.shown_rows_exec();
        if !(fill && self.terminal_rows == 1) {
            let total = lay.len();
            let used = if so <= usize::MAX - n { so + n } else { usize::MAX };
            let below = if total >= used { total - used } else { 0 };
            result.push(self.bottom_border(below, width));
        }
        assert(self.model() =~= after_render(old(self).model(), width as int));
        self.undo_stack.check();
        result
    }
}


impl Editor {
    /// Whether the event is a key bound to `action`.
    fn key_is(&self, event: &InputEvent, action: EditorAction) -> (r: bool)
        ensures
            r == key_bound(self.model(), event@, action),
    {
        match event {
            InputEvent::Key { key_id } => self.keybindings.matches(key_id.as_str(), action),
            InputEvent::KeyRelease { key_id } => self.keybindings.matches(key_id.as_str(), action),
            _ => false,
        }
    }

    /// Types each character of `t`.
    fn type_text_exec(&mut self, t: &String)
        requires
            old(self).wf(),
        ensures
            final(self).wf(),
            final(self).model() == type_text(old(self).model(), t@),
    {
        let v = chars_of(t.as_str());
        let mut i: usize = 0;
        assert(v@.subrange(0, v@.len() as int) =~= v@);
        while i < v.len()
            invariant
                self.wf(),
                i <= v@.len(),
                type_text(old(self).model(), v@) == type_text(self.model(), v@.subrange(i as int, v@.len() as int)),
            decreases v@.len() - i,
        {
            let ghost rest = v@.subrange(i as int, v@.len() as int);
            assert(rest.drop_first() =~= v@.subrange(i + 1, v@.len() as int));
            self.insert_character(v[i], false);
            i += 1;
        }
        assert(v@.subrange(v@.len() as int, v@.len() as int) =~= Seq::<char>::empty());
    }

    fn submit_step_exec(&mut self)
        requires
            old(self).wf(),
        ensures
            final(self).wf(),
            final(self).model() == submit_step(old(self).model()),
            submit_sends(old(self).model()) ==> final(self).notices_view() == old(self).notices_view()
                + submission_notices(old(self).handlers_set().0, old(self).handlers_set().1, submitted(old(self).model())),
    {
        if self.disable_submit {
            return;
        }
        let c = self.cursor_col;
        if c > 0 && self.lines[self.cursor_line][c - 1] == '\\' {
            self.handle_backspace();
            self.add_new_line();
            return;
        }
        self.submit_value();
    }

    fn up_step_exec(&mut self)
        requires
            old(self).wf(),
        ensures
            final(self).wf(),
            final(self).model() == up_step(old(self).model()),
    {
        let empty = self.lines.len() == 1 && self.lines[0].len() == 0;
        let (row, _n) = self.cursor_row_exec();
        if empty || (self.history_index > -1 && row == 0) {
            self.navigate_history(-1);
        } else if row == 0 {
            self.move_to_line_start();
        } else {
            self.move_cursor(-1, 0);
        }
    }

    fn down_step_exec(&mut self)
        requires
            old(self).wf(),
        ensures
            final(self).wf(),
            final(self).model() == down_step(old(self).model()),
    {
        let (row, n) = self.cursor_row_exec();
        let last = n >= 1 && row == n - 1;
        assert(last == (row + 1 == n));
        if self.history_index > -1 && last {
            self.navigate_history(1);
        } else if last {
            self.move_to_line_end();
        } else {
            self.move_cursor(1, 0);
        }
    }

    /// Applies the action bound to a key, or types text (see `key_action`).
    #[verifier::spinoff_prover]
    #[verifier::rlimit(60)]
    fn key_action_exec(&mut self, event: &InputEvent)
        requires
            old(self).wf(),
        ensures
            final(self).wf(),
            final(self).model() == key_action(old(self).model(), event@),
            submit_key(old(self).model(), event@) && submit_sends(old(self).model()) ==> final(self).notices_view()
                == old(self).notices_view() + submission_notices(
                old(self).handlers_set().0,
                old(self).handlers_set().1,
                submitted(old(self).model()),
            ),
    {
        let shift_bs = match event {
            InputEvent::Key { key_id } | InputEvent::KeyRelease { key_id } => {
                proof {
                    reveal_strlit("shift+backspace");
                }
                crate::keys::str_eq(key_id.as_str(), "shift+backspace")
            },
            _ => false,
        };
        let shift_del = match event {
            InputEvent::Key { key_id } | InputEvent::KeyRelease { key_id } => {
                proof {
                    reveal_strlit("shift+delete");
                }
                crate::keys::str_eq(key_id.as_str(), "shift+delete")
            },
            _ => false,
        };
        proof {
            reveal_strlit("shift+backspace");
            reveal_strlit("shift+delete");
            assert("shift+backspace"@ =~= shift_backspace());
            assert("shift+delete"@ =~= shift_delete());
            assert(shift_bs == is_key(event@, shift_backspace()));
            assert(shift_del == is_key(event@, shift_delete()));
        }
        if self.key_is(event, EditorAction::DeleteToLineEnd) {
            self.delete_to_end_of_line();
        } else if self.key_is(event, EditorAction::DeleteToLineStart) {
            self.delete_to_start_of_line();
        } else if self.key_is(event, EditorAction::DeleteWordBackward) {
            self.delete_word_backwards();
        } else if self.key_is(event, EditorAction::DeleteWordForward) {
            self.delete_word_forwards();
        } else if self.key_is(event, EditorAction::DeleteCharBackward) || shift_bs {
            self.handle_backspace();
        } else if self.key_is(event, EditorAction::DeleteCharForward) || shift_del {
            self.handle_forward_delete();
        } else if self.key_is(event, EditorAction::Yank) {
            self.yank();
        } else if self.key_is(event, EditorAction::YankPop) {
            self.yank_pop();
        } else if self.key_is(event, EditorAction::CursorLineStart) {
            self.move_to_line_start();
        } else if self.key_is(event, EditorAction::CursorLineEnd) {
            self.move_to_line_end();
        } else if self.key_is(event, EditorAction::CursorWordLeft) {
            self.move_word_backwards();
        } else if self.key_is(event, EditorAction::CursorWordRight) {
            self.move_word_forwards();
        } else if self.key_is(event, EditorAction::NewLine) {
            self.add_new_line();
        } else if self.key_is(event, EditorAction::Submit) {
            self.submit_step_exec();
        } else if self.key_is(event, EditorAction::CursorUp) {
            self.up_step_exec();
        } else if self.key_is(event, EditorAction::CursorDown) {
            self.down_step_exec();
        } else if self.key_is(event, EditorAction::CursorRight) {
            self.move_cursor(0, 1);
        } else if self.key_is(event, EditorAction::CursorLeft) {
            self.move_cursor(0, -1);
        } else if self.key_is(event, EditorAction::PageUp) {
            self.page_scroll_exec(-1);
        } else if self.key_is(event, EditorAction::PageDown) {
            self.page_scroll_exec(1);
        } else if self.key_is(event, EditorAction::JumpForward) {
            self.jump_mode = Some(JumpMode::Forward);
            assert(self.model() =~= key_action(old(self).model(), event@));
            self.undo_stack.check();
        } else if self.key_is(event, EditorAction::JumpBackward) {
            self.jump_mode = Some(JumpMode::Backward);
            assert(self.model() =~= key_action(old(self).model(), event@));
            self.undo_stack.check();
        } else {
            match event {
                InputEvent::Text { text } => {
                    self.type_text_exec(text);
                },
                _ => {},
            }
        }
    }

    /// Handles an input event (see `editor_event`).
    #[verifier::spinoff_prover]
    #[verifier::rlimit(60)]
    fn handle_event_exec(&mut self, event: &InputEvent)
        ensures
            final(self).wf(),
            final(self).model() == editor_event(old(self).model(), event@),
            event_submission(old(self).model(), event@) matches Some(v) ==> final(self).notices_view()
                == old(self).notices_view() + submission_notices(old(self).handlers_set().0, old(self).handlers_set().1, v),
    {
        self.clamp_cursor();
        let ghost m = self.model();
        match self.jump_mode {
            Some(mode) => {
                self.jump_mode = None;
                let ghost mj = EdModel { jump: None, ..m };
                assert(self.model() =~= mj);
                self.undo_stack.check();
                if self.key_is(event, EditorAction::JumpForward) || self.key_is(event, EditorAction::JumpBackward) {
                    return;
                }
                match event {
                    InputEvent::Text { text } => {
                        let v = chars_of(text.as_str());
                        if v.len() > 0 && v[0] as u32 >= 32 {
                            self.jump_to_char(v[0], mode);
                            return;
                        }
                    },
                    _ => {},
                }
            },
            None => {},
        }
        match event {
            InputEvent::Paste { text } => {
                let v = chars_of(text.as_str());
                if v.len() > 0 {
                    self.handle_paste(text.as_str());
                }
                return;
            },
            _ => {},
        }
        if self.key_is(event, EditorAction::Copy) {
            return;
        }
        if self.key_is(event, EditorAction::Undo) {
            self.undo_exec();
            return;
        }
        if self.key_is(event, EditorAction::Tab) {
            return;
        }
        self.key_action_exec(event);
    }

    /// Places the cursor at byte offset `col` of line `line`; see `set_cursor_spec`.
    pub fn set_cursor(&mut self, line: usize, col: usize)
        requires
            old(self).wf(),
        ensures
            final(self).wf(),
            final(self).model() == set_cursor_spec(old(self).model(), line as int, col as int),
    {
        let l = if line < self.lines.len() { line } else { self.lines.len() - 1 };
        let k = floor_char_exec(&self.lines[l], col);
        self.cursor_line = l;
        self.cursor_col = k;
        self.preferred_visual_col = None;
        assert(self.model() =~= set_cursor_spec(old(self).model(), line as int, col as int));
        self.undo_stack.check();
    }

    /// Places the cursor at byte offset `col` of its line (moved back to the start of its
    /// character, at most the line's end).
    pub fn set_cursor_col(&mut self, col: usize)
        requires
            old(self).wf(),
        ensures
            final(self).wf(),
            final(self).model() == set_cursor_spec(old(self).model(), old(self).model().line, col as int),
    {
        let line = self.cursor_line;
        self.set_cursor(line, col);
    }
}

impl Component for Editor {
    fn render(&mut self, width: usize) -> (r: Vec<String>)
        ensures
            final(self).wf(),
            final(self).model() == after_render(old(self).model(), width as int),
            ({
                let m = clamp(old(self).model());
                let (lay, so, shown) = render_rows_shown(m, width as int);
                &&& r@.len() == 1 + shown.len() + (if has_bottom_border(old(self).model()) { 1int } else { 0 })
                &&& forall|i: int| 0 <= i < shown.len() ==> (#[trigger] r@[1 + i])@ == render_row(
                    shown[i],
                    render_content_width(m, width as int),
                    render_padding(m, width as int),
                )
                &&& so > 0 ==> r@[0]@ == old(self).border_styled(scroll_note('↑', so as nat, width as nat))
                &&& so == 0 ==> r@[0]@ == repeated(old(self).border_styled("─"@), width as nat)
                &&& has_bottom_border(old(self).model()) ==> {
                    let below = rows_below(lay.len(), so, shown.len());
                    &&& below > 0 ==> r@[r@.len() - 1]@ == old(self).border_styled(scroll_note('↓', below, width as nat))
                    &&& below == 0 ==> r@[r@.len() - 1]@ == repeated(old(self).border_styled("─"@), width as nat)
                }
            }),
    {
        self.render_exec(width)
    }

    fn cursor_pos(&self) -> (r: Option<CursorPos>)
        ensures
            r == self.model().last_cursor,
    {
        self.last_cursor_pos
    }

    /// Submitting hands the submission to the submit handler once, after the change handler
    /// has heard the emptied text (see `event_submission`).
    fn handle_event(&mut self, event: &InputEvent)
        ensures
            final(self).wf(),
            final(self).model() == editor_event(old(self).model(), event@),
            event_submission(old(self).model(), event@) matches Some(v) ==> final(self).notices_view()
                == old(self).notices_view() + submission_notices(old(self).handlers_set().0, old(self).handlers_set().1, v),
    {
        self.handle_event_exec(event);
    }

    fn invalidate(&mut self) {
    }
}

impl Focusable for Editor {
    fn set_focused(&mut self, focused: bool)
        ensures
            final(self).model() == (EdModel { focused, ..old(self).model() }),
    {
        self.focused = focused;
        assert(self.model() =~= (EdModel { focused, ..old(self).model() }));
    }

    fn is_focused(&self) -> (r: bool)
        ensures
            r == self.model().focused,
    {
        self.focused
    }
}

/// First index of `ch` in `l` at or after `start`.
fn find_char_exec(l: &Vec<char>, ch: char, start: usize) -> (r: Option<usize>)
    requires
        start <= l@.len(),
    ensures
        match find_char_from(l@, ch, start as int) {
            Some(k) => r == Some(k as usize) && start <= k < l@.len(),
            None => r is None,
        },
{
    let mut k = start;
    while k < l.len()
        invariant
            start <= k <= l@.len(),
            find_char_from(l@, ch, start as int) == find_char_from(l@, ch, k as int),
        decreases l@.len() - k,
    {
        if l[k] == ch {
            return Some(k);
        }
        k += 1;
    }
    None
}

/// Last index of `ch` in `l` before `end`.
fn rfind_char_exec(l: &Vec<char>, ch: char, end: usize) -> (r: Option<usize>)
    requires
        end <= l@.len(),
    ensures
        match rfind_char_before(l@, ch, end as int) {
            Some(k) => r == Some(k as usize) && 0 <= k < end,
            None => r is None,
        },
{
    let mut j = end;
    while j > 0
        invariant
            j <= end <= l@.len(),
            rfind_char_before(l@, ch, end as int) == rfind_char_before(l@, ch, j as int),
        decreases j,
    {
        if l[j - 1] == ch {
            return Some(j - 1);
        }
        j -= 1;
    }
    None
}

/// Whether two character vectors are equal.
fn chars_equal(a: &Vec<char>, b: &Vec<char>) -> (r: bool)
    ensures
        r == (a@ == b@),
{
    if a.len() != b.len() {
        return false;
    }
    let mut i: usize = 0;
    while i < a.len()
        invariant
            a@.len() == b@.len(),
            i <= a@.len(),
            forall|j: int| 0 <= j < i ==> a@[j] == b@[j],
        decreases a@.len() - i,
    {
        if a[i] != b[i] {
            return false;
        }
        i += 1;
    }
    assert(a@ =~= b@);
    true
}

} // verus!

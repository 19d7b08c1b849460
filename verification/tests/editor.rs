use tape_tui::keys::parse_input_events;
use tape_tui::widgets::editor::{Editor, EditorHeightMode, EditorOptions, EditorPasteMode, EditorTheme};
use tape_tui::widgets::select_list::SelectListTheme;
use tape_tui::style::WrapStyle;
use tape_tui::{default_editor_keybindings_handle, Component, CursorPos, Focusable};


fn theme() -> EditorTheme {
    EditorTheme {
        border_color: Box::new(WrapStyle::plain()),
        select_list: SelectListTheme {
            selected_prefix: Box::new(WrapStyle::plain()),
            selected_text: Box::new(WrapStyle::plain()),
            description: Box::new(WrapStyle::plain()),
            scroll_info: Box::new(WrapStyle::plain()),
            no_match: Box::new(WrapStyle::plain()),
        },
    }
}

fn editor(options: EditorOptions) -> Editor {
    Editor::new(theme(), default_editor_keybindings_handle(), options)
}

fn send(editor: &mut Editor, data: &str) {
    for event in parse_input_events(data, false) {
        editor.handle_event(&event);
    }
}

#[test]
fn editor_moves_across_lines() {
    let mut editor = editor(EditorOptions::default());
    editor.set_text("one\ntwo");
    editor.set_cursor(0, 3);

    send(&mut editor, "\x1b[C");
    assert_eq!(editor.get_cursor(), (1, 0));

    send(&mut editor, "\x1b[D");
    assert_eq!(editor.get_cursor(), (0, 3));
}

#[test]
fn editor_scrolls_to_keep_cursor_visible() {
    let mut editor = editor(EditorOptions::default());
    editor.set_terminal_rows(10);
    let lines = (0..10).map(|idx| format!("line {idx}")).collect::<Vec<_>>();
    editor.set_text(&lines.join("\n"));
    editor.set_cursor(7, 0);

    let _ = editor.render(20);
    assert_eq!(editor.scroll_offset(), 3);
}

#[test]
fn editor_reports_cursor_pos_when_focused() {
    let mut editor = editor(EditorOptions::default());
    editor.set_text("hi");
    editor.set_cursor(0, 1);
    editor.set_focused(true);
    let lines = editor.render(10);
    assert!(!lines.iter().any(|line| line.contains("\x1b_pi:c")));
    assert_eq!(editor.cursor_pos(), Some(CursorPos { row: 1, col: 1 }));
}

#[test]
fn editor_getters_reflect_options() {
    let options = EditorOptions {
        padding_x: Some(2),
        autocomplete_max_visible: Some(7),
        ..EditorOptions::default()
    };
    let editor = editor(options);
    assert_eq!(editor.get_padding_x(), 2);
    assert_eq!(editor.get_autocomplete_max_visible(), 7);
}

#[test]
fn editor_fill_available_renders_more_lines_than_default() {
    let text = (0..50)
        .map(|idx| format!("line {idx}"))
        .collect::<Vec<_>>()
        .join("\n");

    let mut default_editor = editor(EditorOptions::default());
    default_editor.set_terminal_rows(20);
    default_editor.set_text(&text);
    let default_lines = default_editor.render(20);

    let mut fill_editor = editor(EditorOptions {
        height_mode: Some(EditorHeightMode::FillAvailable),
        ..EditorOptions::default()
    });
    fill_editor.set_terminal_rows(20);
    fill_editor.set_text(&text);
    let fill_lines = fill_editor.render(20);

    assert_eq!(fill_lines.len(), 20);
    assert!(fill_lines.len() > default_lines.len());
}

#[test]
fn editor_fill_available_pads_short_content_to_terminal_rows() {
    let mut editor = editor(EditorOptions {
        height_mode: Some(EditorHeightMode::FillAvailable),
        ..EditorOptions::default()
    });
    editor.set_terminal_rows(20);
    editor.set_text("hi");

    let lines = editor.render(20);
    assert_eq!(lines.len(), 20);
    assert_eq!(lines.last().unwrap(), &"─".repeat(20));
}

#[test]
fn editor_top_border_when_scrolled() {
    let mut editor = editor(EditorOptions::default());
    editor.set_terminal_rows(10);
    let rows = (0..10).map(|idx| format!("row {idx}")).collect::<Vec<_>>();
    editor.set_text(&rows.join("\n"));
    editor.set_cursor(8, 0);
    let lines = editor.render(20);
    assert!(lines[0].contains("↑"));
}

#[test]
fn editor_undo_coalesces_words() {
    let mut editor = editor(EditorOptions::default());
    for ch in "hello world".chars() {
        let input = ch.to_string();
        send(&mut editor, &input);
    }
    send(&mut editor, "\x1f"); // ctrl+-
    assert_eq!(editor.get_text(), "hello");
    send(&mut editor, "\x1f");
    assert_eq!(editor.get_text(), "");
}

#[test]
fn editor_kill_and_yank_restore_line() {
    let mut editor = editor(EditorOptions::default());
    editor.set_text("hello world");
    editor.set_cursor(0, 5);

    send(&mut editor, "\x0b"); // ctrl+k
    assert_eq!(editor.get_text(), "hello");

    send(&mut editor, "\x19"); // ctrl+y
    assert_eq!(editor.get_text(), "hello world");
}

#[test]
fn editor_history_navigation_bounds_and_exits_on_edit() {
    let mut editor = editor(EditorOptions::default());
    editor.add_to_history("first");
    editor.add_to_history("second");

    send(&mut editor, "\x1b[A");
    assert_eq!(editor.get_text(), "second");
    assert_eq!(editor.history_index(), 0);

    send(&mut editor, "\x1b[A");
    assert_eq!(editor.get_text(), "first");
    assert_eq!(editor.history_index(), 1);

    send(&mut editor, "\x1b[A");
    assert_eq!(editor.get_text(), "first");
    assert_eq!(editor.history_index(), 1);

    send(&mut editor, "\x1b[B");
    assert_eq!(editor.get_text(), "second");
    assert_eq!(editor.history_index(), 0);

    send(&mut editor, "\x1b[B");
    assert_eq!(editor.get_text(), "");
    assert_eq!(editor.history_index(), -1);

    send(&mut editor, "\x1b[A");
    assert_eq!(editor.get_text(), "second");
    assert_eq!(editor.history_index(), 0);

    send(&mut editor, "!");
    assert_eq!(editor.get_text(), "second!");
    assert_eq!(editor.history_index(), -1);

    send(&mut editor, "\x1b[B");
    assert_eq!(editor.get_text(), "second!");
    assert_eq!(editor.history_index(), -1);
}

#[test]
fn editor_grapheme_movement_and_deletion_are_cluster_aware() {
    let emoji = "👨‍👩‍👧‍👦";
    let mut editor = editor(EditorOptions::default());

    editor.set_text(&format!("a{emoji}b"));
    editor.set_cursor(0, format!("a{emoji}b").len());

    editor.move_cursor(0, -1);
    assert_eq!(editor.get_cursor(), (0, format!("a{emoji}").len()));
    editor.move_cursor(0, -1);
    assert_eq!(editor.get_cursor(), (0, 1));
    editor.move_cursor(0, 1);
    assert_eq!(editor.get_cursor(), (0, 1 + emoji.len()));

    editor.set_text(&format!("a{emoji}b"));
    editor.set_cursor(0, 1 + emoji.len());
    editor.handle_backspace();
    assert_eq!(editor.get_text(), "ab");
    assert_eq!(editor.get_cursor(), (0, 1));

    editor.set_text(&format!("a{emoji}b"));
    editor.set_cursor(0, 1);
    editor.handle_forward_delete();
    assert_eq!(editor.get_text(), "ab");
    assert_eq!(editor.get_cursor(), (0, 1));
}

#[test]
fn editor_word_navigation_and_deletion_handle_punctuation_and_multiline() {
    let mut editor = editor(EditorOptions::default());

    editor.set_text("foo,  bar");
    editor.set_cursor(0, "foo,  bar".len());

    editor.move_word_backwards();
    assert_eq!(editor.get_cursor(), (0, 6));
    editor.move_word_backwards();
    assert_eq!(editor.get_cursor(), (0, 3));
    editor.move_word_backwards();
    assert_eq!(editor.get_cursor(), (0, 0));

    editor.move_word_forwards();
    assert_eq!(editor.get_cursor(), (0, 3));
    editor.move_word_forwards();
    assert_eq!(editor.get_cursor(), (0, 4));
    editor.move_word_forwards();
    assert_eq!(editor.get_cursor(), (0, "foo,  bar".len()));

    editor.set_text("foo,bar");
    editor.set_cursor(0, 4);
    editor.delete_word_backwards();
    assert_eq!(editor.get_text(), "foobar");
    assert_eq!(editor.get_cursor(), (0, 3));

    editor.set_text("left\nright");
    editor.set_cursor(1, 0);
    editor.delete_word_backwards();
    assert_eq!(editor.get_text(), "leftright");
    assert_eq!(editor.get_cursor(), (0, 4));

    editor.set_text("left\nright");
    editor.set_cursor(0, 4);
    editor.delete_word_forwards();
    assert_eq!(editor.get_text(), "leftright");
    assert_eq!(editor.get_cursor(), (0, 4));
}

#[test]
fn editor_yank_pop_rotates_kill_ring_entries() {
    let mut editor = editor(EditorOptions::default());
    editor.add_to_kill_ring("one", false);
    editor.clear_last_action();
    editor.add_to_kill_ring("two", false);

    editor.yank();
    assert_eq!(editor.get_text(), "two");

    editor.yank_pop();
    assert_eq!(editor.get_text(), "one");

    editor.yank_pop();
    assert_eq!(editor.get_text(), "two");
}

#[test]
fn editor_undo_breaks_coalescing_after_cursor_move() {
    let mut editor = editor(EditorOptions::default());
    for ch in "abc".chars() {
        send(&mut editor, &ch.to_string());
    }
    send(&mut editor, "\x1b[D");
    send(&mut editor, "X");
    assert_eq!(editor.get_text(), "abXc");

    send(&mut editor, "\x1f"); // ctrl+-
    assert_eq!(editor.get_text(), "abc");

    send(&mut editor, "\x1f"); // ctrl+-
    assert_eq!(editor.get_text(), "");
}

#[test]
fn editor_large_paste_inserts_marker_and_expands() {
    let mut editor = editor(EditorOptions::default());
    let lines = (0..11).map(|idx| format!("line{idx}")).collect::<Vec<_>>();
    let paste = lines.join("\n");
    let input = format!("\x1b[200~{paste}\x1b[201~");
    send(&mut editor, &input);
    let text = editor.get_text();
    assert!(text.contains("[paste #1 +11 lines]"));
    assert_eq!(editor.get_expanded_text(), paste);
}

#[test]
fn editor_large_paste_in_literal_mode_inserts_full_text() {
    let mut editor = editor(EditorOptions {
        paste_mode: Some(EditorPasteMode::Literal),
        ..EditorOptions::default()
    });
    let lines = (0..11).map(|idx| format!("line{idx}")).collect::<Vec<_>>();
    let paste = lines.join("\n");
    let input = format!("\x1b[200~{paste}\x1b[201~");
    send(&mut editor, &input);
    let text = editor.get_text();
    assert!(text.contains('\n'));
    assert!(!text.contains("[paste #"));
    assert_eq!(text, paste);
}

struct Collect {
    seen: std::rc::Rc<std::cell::RefCell<Vec<String>>>,
}

impl tape_tui::callbacks::ValueHandler for Collect {
    fn call(&mut self, value: String) {
        self.seen.borrow_mut().push(value);
    }
}

#[test]
fn editor_submit_trims_expands_and_resets() {
    let seen = std::rc::Rc::new(std::cell::RefCell::new(Vec::new()));
    let mut editor = editor(EditorOptions::default());
    editor.set_on_submit(Some(Box::new(Collect { seen: seen.clone() })));
    let lines = (0..12).map(|idx| format!("p{idx}")).collect::<Vec<_>>();
    send(&mut editor, "  go ");
    send(&mut editor, &format!("\x1b[200~{}\x1b[201~", lines.join("\n")));
    send(&mut editor, "\r");
    assert_eq!(seen.borrow().as_slice(), &[format!("go {}", lines.join("\n"))]);
    assert_eq!(editor.get_text(), "");
    assert_eq!(editor.get_cursor(), (0, 0));
    // Nothing is left to undo after a submission.
    send(&mut editor, "\x1f");
    assert_eq!(editor.get_text(), "");
}

#[test]
fn editor_backslash_enter_inserts_line_break_and_disabled_submit_does_nothing() {
    let seen = std::rc::Rc::new(std::cell::RefCell::new(Vec::new()));
    let mut editor = editor(EditorOptions::default());
    editor.set_on_submit(Some(Box::new(Collect { seen: seen.clone() })));
    send(&mut editor, "a\\");
    send(&mut editor, "\r");
    assert_eq!(editor.get_text(), "a\n");
    assert_eq!(editor.get_cursor(), (1, 0));
    editor.set_disable_submit(true);
    send(&mut editor, "b\r");
    assert_eq!(editor.get_text(), "a\nb");
    assert!(seen.borrow().is_empty());
}

#[test]
fn editor_jump_moves_to_next_and_previous_character() {
    let mut editor = editor(EditorOptions::default());
    editor.set_text("abcabc\nxbz");
    editor.set_cursor(0, 0);
    send(&mut editor, "\x1d"); // ctrl+]
    send(&mut editor, "b");
    assert_eq!(editor.get_cursor(), (0, 1));
    send(&mut editor, "\x1d");
    send(&mut editor, "b");
    assert_eq!(editor.get_cursor(), (0, 4));
    send(&mut editor, "\x1d");
    send(&mut editor, "b");
    assert_eq!(editor.get_cursor(), (1, 1));
    send(&mut editor, "\x1b\x1d"); // ctrl+alt+]
    send(&mut editor, "c");
    assert_eq!(editor.get_cursor(), (0, 5));
    // A character that does not occur leaves the cursor; the text is unchanged.
    send(&mut editor, "\x1d");
    send(&mut editor, "q");
    assert_eq!(editor.get_cursor(), (0, 5));
    assert_eq!(editor.get_text(), "abcabc\nxbz");
}

#[test]
fn editor_kills_to_line_start_and_words_accumulate_in_ring() {
    let mut editor = editor(EditorOptions::default());
    editor.set_text("one two three");
    send(&mut editor, "\x17"); // ctrl+w
    assert_eq!(editor.get_text(), "one two ");
    send(&mut editor, "\x17");
    assert_eq!(editor.get_text(), "one ");
    send(&mut editor, "\x15"); // ctrl+u
    assert_eq!(editor.get_text(), "");
    send(&mut editor, "\x19"); // ctrl+y: the three kills form one entry
    assert_eq!(editor.get_text(), "one two three");
}

#[test]
fn editor_new_line_and_undo_restore_text_and_cursor() {
    let mut editor = editor(EditorOptions::default());
    editor.set_text("abcd");
    editor.set_cursor(0, 2);
    let event = tape_tui::InputEvent::Key { key_id: "shift+enter".to_string() };
    editor.handle_event(&event);
    editor.handle_event(&event);
    assert_eq!(editor.get_text(), "ab\n\ncd");
    assert_eq!(editor.get_cursor(), (2, 0));
    send(&mut editor, "\x1f");
    assert_eq!(editor.get_text(), "ab\ncd");
    assert_eq!(editor.get_cursor(), (1, 0));
}

#[test]
fn editor_long_single_line_paste_becomes_char_marker() {
    let mut editor = editor(EditorOptions::default());
    let long = "x".repeat(1001);
    send(&mut editor, &format!("\x1b[200~{long}\x1b[201~"));
    assert_eq!(editor.get_text(), "[paste #1 1001 chars]");
    assert_eq!(editor.get_expanded_text(), long);
}

#[test]
fn editor_paste_cleans_tabs_and_control_characters() {
    let mut editor = editor(EditorOptions::default());
    send(&mut editor, "a");
    send(&mut editor, "\x1b[200~/x\tb\x07\x1b[201~");
    assert_eq!(editor.get_text(), "a /x    b");
}

#[test]
fn editor_tab_without_completions_does_nothing() {
    let mut editor = editor(EditorOptions::default());
    send(&mut editor, "ab\t");
    assert_eq!(editor.get_text(), "ab");
    assert_eq!(editor.get_cursor(), (0, 2));
}

#[test]
fn editor_wrapped_lines_move_vertically_by_rows() {
    let mut editor = editor(EditorOptions::default());
    editor.set_text("aaaa bbbb cccc");
    let _ = editor.render(7);
    editor.set_cursor(0, 1);
    send(&mut editor, "\x1b[B");
    assert_eq!(editor.get_cursor(), (0, 6));
    send(&mut editor, "\x1b[B");
    assert_eq!(editor.get_cursor(), (0, 11));
    send(&mut editor, "\x1b[A");
    assert_eq!(editor.get_cursor(), (0, 6));
}

#[test]
fn editor_render_draws_rows_between_borders_with_cursor() {
    let mut editor = editor(EditorOptions::default());
    editor.set_text("hi");
    editor.set_focused(true);
    let lines = editor.render(6);
    assert_eq!(lines.len(), 3);
    assert_eq!(lines[0], "──────");
    assert_eq!(lines[1], "hi\x1b[7m \x1b[0m   ");
    assert_eq!(lines[2], "──────");
    assert_eq!(editor.cursor_pos(), Some(CursorPos { row: 1, col: 2 }));
}

#[test]
fn editor_history_keeps_trimmed_distinct_entries() {
    let mut editor = editor(EditorOptions::default());
    editor.add_to_history("  a  ");
    editor.add_to_history("a");
    editor.add_to_history("   ");
    send(&mut editor, "\x1b[A");
    assert_eq!(editor.get_text(), "a");
    send(&mut editor, "\x1b[A");
    assert_eq!(editor.get_text(), "a");
    assert_eq!(editor.history_index(), 0);
}

#[test]
fn editor_inserts_text_at_cursor_and_reports_lines() {
    let mut editor = editor(EditorOptions::default());
    editor.set_text("ab");
    editor.set_cursor_col(1);
    editor.insert_text_at_cursor("x\r\ny");
    assert_eq!(editor.get_lines(), vec!["ax".to_string(), "yb".to_string()]);
    assert_eq!(editor.get_cursor(), (1, 1));
    send(&mut editor, "\x1f");
    assert_eq!(editor.get_text(), "ab");
    editor.insert_text_at_cursor("");
    assert_eq!(editor.get_text(), "ab");
}

#[test]
fn editor_setters_clamp_and_padding_shapes_rows() {
    let mut editor = editor(EditorOptions::default());
    editor.set_autocomplete_max_visible(1);
    assert_eq!(editor.get_autocomplete_max_visible(), 3);
    editor.set_autocomplete_max_visible(50);
    assert_eq!(editor.get_autocomplete_max_visible(), 20);
    editor.set_padding_x(2);
    assert_eq!(editor.get_padding_x(), 2);
    editor.set_border_color(Box::new(WrapStyle::plain()));
    editor.set_text("hey");
    let lines = editor.render(9);
    assert_eq!(lines[1], "  hey\x1b[7m \x1b[0m   ");
    // A cursor mid-text colors the character under it.
    editor.set_cursor_col(1);
    let lines = editor.render(9);
    assert_eq!(lines[1], "  h\x1b[7me\x1b[0my    ");
}

#[test]
fn editor_on_change_sees_each_edit() {
    let seen = std::rc::Rc::new(std::cell::RefCell::new(Vec::new()));
    let mut editor = editor(EditorOptions::default());
    editor.set_on_change(Some(Box::new(Collect { seen: seen.clone() })));
    send(&mut editor, "ab\x7f");
    assert_eq!(seen.borrow().as_slice(), &["a".to_string(), "ab".to_string(), "a".to_string()]);
}

#[test]
fn editor_page_down_moves_by_page_rows() {
    let mut editor = editor(EditorOptions::default());
    let text = (0..20).map(|idx| format!("l{idx}")).collect::<Vec<_>>().join("\n");
    editor.set_text(&text);
    editor.set_cursor(0, 0);
    send(&mut editor, "\x1b[6~");
    assert_eq!(editor.get_cursor(), (5, 0));
    send(&mut editor, "\x1b[5~");
    assert_eq!(editor.get_cursor(), (0, 0));
}

#[test]
fn submission_is_the_trimmed_text() {
    let mut e = editor(EditorOptions::default());
    e.set_text("  hello world \n");
    assert_eq!(e.submission(), "hello world");
}

#[test]
fn editor_borders_repeat_the_styled_rule() {
    let mut editor = Editor::new(theme(), default_editor_keybindings_handle(), EditorOptions::default());
    editor.set_border_color(Box::new(WrapStyle::new("<", ">")));
    editor.set_text("hi");
    let lines = editor.render(3);
    assert_eq!(lines[0], "<─><─><─>");
    assert_eq!(lines[lines.len() - 1], "<─><─><─>");
}
